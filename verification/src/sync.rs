//! The sync driver: what one poll batch does to the bot's state.
//!
//! Each batch is processed in a fixed order: newly arrived invitations are
//! ingested, the whole retry queue is tried once, then every joined room's
//! state section and timeline are folded into the store, commands are
//! routed, and at most one "publish room list" effect closes the batch,
//! present exactly when some room metadata changed.
//!
//! The caller performs the joins between `ingest_invites` and
//! `finish_batch` and hands their outcomes in; everything else is decided
//! here.

use vstd::prelude::*;
use crate::commands::handle;
use crate::commands::spec_route;
use crate::effects::Effect;
use crate::effects::EffectV;
use crate::invites::InviteRetryQueue;
use crate::invites::PendingInviteV;
use crate::invites::queue_ingest;
use crate::invites::queue_ingest_all;
use crate::invites::tick_result;
use crate::invites::tick_succeeded;
use crate::rooms::RoomInfoV;
use crate::rooms::RoomStateStore;
use crate::rooms::StateEvent;
use crate::rooms::StateEventV;
use crate::rooms::is_metadata_event;
use crate::rooms::opt_view;
use crate::rooms::store_apply;
use crate::rooms::store_ensure;
use crate::rooms::store_ensure_all;
use crate::rooms::store_get;
use crate::roster::AdminRoster;

verus! {

/// A room event delivered on a room's timeline.
#[derive(Debug, PartialEq, Eq)]
pub enum TimelineEvent {
    /// A room message; `text` is its plain-text body when it has one.
    Message { sender: String, text: Option<String> },
    /// A state change delivered on the timeline.
    State { event: StateEvent },
    /// Any other timeline event; it is ignored.
    Other,
}

/// Mathematical image of a `TimelineEvent`.
pub ghost enum TimelineEventV {
    Message { sender: Seq<char>, text: Option<Seq<char>> },
    State { event: StateEventV },
    Other,
}

impl View for TimelineEvent {
    type V = TimelineEventV;

    open spec fn view(&self) -> TimelineEventV {
        match self {
            TimelineEvent::Message { sender, text } => TimelineEventV::Message {
                sender: sender@,
                text: opt_view(*text),
            },
            TimelineEvent::State { event } => TimelineEventV::State { event: event@ },
            TimelineEvent::Other => TimelineEventV::Other,
        }
    }
}

/// One joined room's share of a sync batch.
#[derive(Debug)]
pub struct JoinedRoom {
    pub room_id: String,
    /// The state section, applied before the timeline.
    pub state_events: Vec<StateEvent>,
    /// The timeline, processed in delivery order.
    pub timeline_events: Vec<TimelineEvent>,
}

/// Mathematical image of a `JoinedRoom`.
pub ghost struct JoinedRoomV {
    pub room_id: Seq<char>,
    pub state_events: Seq<StateEventV>,
    pub timeline_events: Seq<TimelineEventV>,
}

impl View for JoinedRoom {
    type V = JoinedRoomV;

    open spec fn view(&self) -> JoinedRoomV {
        JoinedRoomV {
            room_id: self.room_id@,
            state_events: self.state_events@.map_values(|e: StateEvent| e@),
            timeline_events: self.timeline_events@.map_values(|e: TimelineEvent| e@),
        }
    }
}

/// Where a slice of batch processing lands: the store and roster after it,
/// the effects it asks for in order, and whether room metadata changed.
pub ghost struct SyncOutcome {
    pub rooms: Seq<RoomInfoV>,
    pub roster: Seq<Seq<char>>,
    pub effects: Seq<EffectV>,
    pub changed: bool,
}

/// The permission push an admin member's join triggers: the roster plus
/// the bot identity, at admin level, into the room.
pub open spec fn spec_member_effects(
    roster: Seq<Seq<char>>,
    bot_id: Seq<char>,
    room_id: Seq<char>,
    ev: StateEventV,
) -> Seq<EffectV> {
    match ev {
        StateEventV::Member { sender, joined } => if joined && roster.contains(sender) {
            seq![EffectV::SetPowerLevels { room_id: room_id, user_ids: roster.push(bot_id) }]
        } else {
            Seq::<EffectV>::empty()
        },
        _ => Seq::<EffectV>::empty(),
    }
}

/// A room's state section folded into the store, event by event.  The
/// roster never changes here; membership events may ask for permission
/// pushes, metadata events mark the batch changed.
pub open spec fn spec_state_events(
    rooms: Seq<RoomInfoV>,
    roster: Seq<Seq<char>>,
    bot_id: Seq<char>,
    room_id: Seq<char>,
    evs: Seq<StateEventV>,
) -> SyncOutcome
    decreases evs.len(),
{
    if evs.len() == 0 {
        SyncOutcome { rooms, roster, effects: Seq::<EffectV>::empty(), changed: false }
    } else {
        let first_effects = spec_member_effects(roster, bot_id, room_id, evs[0]);
        let rest = spec_state_events(
            store_apply(rooms, room_id, evs[0]),
            roster,
            bot_id,
            room_id,
            evs.drop_first(),
        );
        SyncOutcome {
            rooms: rest.rooms,
            roster,
            effects: first_effects + rest.effects,
            changed: is_metadata_event(evs[0]) || rest.changed,
        }
    }
}

/// What one timeline event does.  Every event makes sure the room has an
/// entry.  A message is relayed to the backend and, when it carries text,
/// routed as a possible command; a state change is folded into the store.
pub open spec fn spec_timeline_step(
    rooms: Seq<RoomInfoV>,
    roster: Seq<Seq<char>>,
    bot_id: Seq<char>,
    room_id: Seq<char>,
    ev: TimelineEventV,
    handle_messages: bool,
) -> SyncOutcome {
    match ev {
        TimelineEventV::Message { sender, text } => {
            let rooms1 = store_ensure(rooms, room_id);
            if handle_messages {
                let entry = store_get(rooms1, room_id);
                let relay = seq![
                    EffectV::RelayMessage {
                        room_id: room_id,
                        room_name: entry.name,
                        room_alias: entry.alias,
                        sender: sender,
                        text: text,
                    },
                ];
                match text {
                    Some(t) => {
                        let routed = spec_route(roster, bot_id, room_id, sender, t);
                        SyncOutcome {
                            rooms: rooms1,
                            roster: routed.0,
                            effects: relay + routed.1,
                            changed: false,
                        }
                    },
                    None => SyncOutcome {
                        rooms: rooms1,
                        roster,
                        effects: relay,
                        changed: false,
                    },
                }
            } else {
                SyncOutcome {
                    rooms: rooms1,
                    roster,
                    effects: Seq::<EffectV>::empty(),
                    changed: false,
                }
            }
        },
        TimelineEventV::State { event } => SyncOutcome {
            rooms: store_apply(rooms, room_id, event),
            roster,
            effects: spec_member_effects(roster, bot_id, room_id, event),
            changed: is_metadata_event(event),
        },
        TimelineEventV::Other => SyncOutcome {
            rooms: store_ensure(rooms, room_id),
            roster,
            effects: Seq::<EffectV>::empty(),
            changed: false,
        },
    }
}

/// A room's timeline folded left to right, threading store and roster.
pub open spec fn spec_timeline(
    rooms: Seq<RoomInfoV>,
    roster: Seq<Seq<char>>,
    bot_id: Seq<char>,
    room_id: Seq<char>,
    evs: Seq<TimelineEventV>,
    handle_messages: bool,
) -> SyncOutcome
    decreases evs.len(),
{
    if evs.len() == 0 {
        SyncOutcome { rooms, roster, effects: Seq::<EffectV>::empty(), changed: false }
    } else {
        let first = spec_timeline_step(rooms, roster, bot_id, room_id, evs[0], handle_messages);
        let rest = spec_timeline(
            first.rooms,
            first.roster,
            bot_id,
            room_id,
            evs.drop_first(),
            handle_messages,
        );
        SyncOutcome {
            rooms: rest.rooms,
            roster: rest.roster,
            effects: first.effects + rest.effects,
            changed: first.changed || rest.changed,
        }
    }
}

/// One joined room: its state section first, then its timeline.
pub open spec fn spec_joined_room(
    rooms: Seq<RoomInfoV>,
    roster: Seq<Seq<char>>,
    bot_id: Seq<char>,
    room: JoinedRoomV,
    handle_messages: bool,
) -> SyncOutcome {
    let state = spec_state_events(rooms, roster, bot_id, room.room_id, room.state_events);
    let timeline = spec_timeline(
        state.rooms,
        roster,
        bot_id,
        room.room_id,
        room.timeline_events,
        handle_messages,
    );
    SyncOutcome {
        rooms: timeline.rooms,
        roster: timeline.roster,
        effects: state.effects + timeline.effects,
        changed: state.changed || timeline.changed,
    }
}

/// All joined rooms of a batch, in delivery order.
pub open spec fn spec_joined_rooms(
    rooms: Seq<RoomInfoV>,
    roster: Seq<Seq<char>>,
    bot_id: Seq<char>,
    batch: Seq<JoinedRoomV>,
    handle_messages: bool,
) -> SyncOutcome
    decreases batch.len(),
{
    if batch.len() == 0 {
        SyncOutcome { rooms, roster, effects: Seq::<EffectV>::empty(), changed: false }
    } else {
        let first = spec_joined_room(rooms, roster, bot_id, batch[0], handle_messages);
        let rest = spec_joined_rooms(
            first.rooms,
            first.roster,
            bot_id,
            batch.drop_first(),
            handle_messages,
        );
        SyncOutcome {
            rooms: rest.rooms,
            roster: rest.roster,
            effects: first.effects + rest.effects,
            changed: first.changed || rest.changed,
        }
    }
}

/// No effect of the list publishes the room list.
pub open spec fn no_publish(effects: Seq<EffectV>) -> bool {
    forall|i: int| 0 <= i < effects.len() ==> !(#[trigger] effects[i] is PublishRooms)
}

/// Routing a command never publishes the room list.
proof fn lemma_route_no_publish(
    roster: Seq<Seq<char>>,
    bot_id: Seq<char>,
    room_id: Seq<char>,
    sender: Seq<char>,
    text: Seq<char>,
)
    ensures
        no_publish(spec_route(roster, bot_id, room_id, sender, text).1),
{
}

/// Folding a state section never publishes the room list.
proof fn lemma_state_events_no_publish(
    rooms: Seq<RoomInfoV>,
    roster: Seq<Seq<char>>,
    bot_id: Seq<char>,
    room_id: Seq<char>,
    evs: Seq<StateEventV>,
)
    ensures
        no_publish(spec_state_events(rooms, roster, bot_id, room_id, evs).effects),
    decreases evs.len(),
{
    if evs.len() == 0 {
    } else {
        lemma_state_events_no_publish(
            store_apply(rooms, room_id, evs[0]),
            roster,
            bot_id,
            room_id,
            evs.drop_first(),
        );
    }
}

/// Folding a timeline never publishes the room list.
proof fn lemma_timeline_no_publish(
    rooms: Seq<RoomInfoV>,
    roster: Seq<Seq<char>>,
    bot_id: Seq<char>,
    room_id: Seq<char>,
    evs: Seq<TimelineEventV>,
    handle_messages: bool,
)
    ensures
        no_publish(spec_timeline(rooms, roster, bot_id, room_id, evs, handle_messages).effects),
    decreases evs.len(),
{
    if evs.len() == 0 {
    } else {
        let first = spec_timeline_step(rooms, roster, bot_id, room_id, evs[0], handle_messages);
        assert(no_publish(first.effects)) by {
            match evs[0] {
                TimelineEventV::Message { sender, text } => {
                    match text {
                        Some(t) => {
                            lemma_route_no_publish(roster, bot_id, room_id, sender, t);
                        },
                        None => {},
                    }
                },
                TimelineEventV::State { event } => {},
                TimelineEventV::Other => {},
            }
        }
        lemma_timeline_no_publish(
            first.rooms,
            first.roster,
            bot_id,
            room_id,
            evs.drop_first(),
            handle_messages,
        );
    }
}

/// Publish coalescing: processing the joined rooms of a batch asks for no
/// "publish room list" effect of its own, however many metadata changes it
/// makes.  The one publish a changed batch ends with is the single effect
/// `finish_batch` appends afterwards.
pub proof fn lemma_publish_coalesced(
    rooms: Seq<RoomInfoV>,
    roster: Seq<Seq<char>>,
    bot_id: Seq<char>,
    batch: Seq<JoinedRoomV>,
    handle_messages: bool,
)
    ensures
        no_publish(spec_joined_rooms(rooms, roster, bot_id, batch, handle_messages).effects),
    decreases batch.len(),
{
    if batch.len() == 0 {
    } else {
        let first = spec_joined_room(rooms, roster, bot_id, batch[0], handle_messages);
        let state = spec_state_events(rooms, roster, bot_id, batch[0].room_id, batch[0].state_events);
        lemma_state_events_no_publish(
            rooms,
            roster,
            bot_id,
            batch[0].room_id,
            batch[0].state_events,
        );
        lemma_timeline_no_publish(
            state.rooms,
            roster,
            bot_id,
            batch[0].room_id,
            batch[0].timeline_events,
            handle_messages,
        );
        lemma_publish_coalesced(first.rooms, first.roster, bot_id, batch.drop_first(), handle_messages);
    }
}

/// Copy an optional string.
fn clone_opt(o: &Option<String>) -> (r: Option<String>)
    ensures
        opt_view(r) == opt_view(*o),
{
    match o {
        Some(s) => Some(s.clone()),
        None => None,
    }
}

/// The 0-or-1 permission-push effects of one state event.
fn member_effect(
    roster: &AdminRoster,
    bot_id: &String,
    room_id: &String,
    ev: &StateEvent,
) -> (r: Vec<Effect>)
    ensures
        r@.map_values(|e: Effect| e@) == spec_member_effects(roster@, bot_id@, room_id@, ev@),
{
    let mut out: Vec<Effect> = Vec::new();
    match ev {
        StateEvent::Member { sender, joined } => {
            if *joined && roster.is_admin(sender) {
                out.push(
                    Effect::SetPowerLevels {
                        room_id: room_id.clone(),
                        user_ids: roster.members_and(bot_id),
                    },
                );
            }
        },
        _ => {},
    }
    proof {
        assert(out@.map_values(|e: Effect| e@) =~= spec_member_effects(
            roster@,
            bot_id@,
            room_id@,
            ev@,
        ));
    }
    out
}

/// The bot's whole mutable state, fed by one cooperative loop.
pub struct SyncState {
    pub rooms: RoomStateStore,
    pub invites: InviteRetryQueue,
    pub roster: AdminRoster,
    pub bot_id: String,
}

impl SyncState {
    pub open spec fn wf(&self) -> bool {
        &&& self.rooms.wf()
        &&& self.invites.wf()
    }

    pub fn new(bot_id: String, admins: Vec<String>) -> (r: SyncState)
        ensures
            r.wf(),
            r.rooms@ == Seq::<RoomInfoV>::empty(),
            r.invites@.len() == 0,
            r.roster@ == admins@.map_values(|s: String| s@),
            r.bot_id@ == bot_id@,
    {
        SyncState {
            rooms: RoomStateStore::new(),
            invites: InviteRetryQueue::new(),
            roster: AdminRoster::new(admins),
            bot_id,
        }
    }

    /// Put every newly arrived invitation into the retry queue, before the
    /// queue is tried: a batch's retries always cover its new invites too.
    pub fn ingest_invites(&mut self, invited: &Vec<String>)
        requires
            old(self).wf(),
        ensures
            final(self).wf(),
            final(self).invites@ == queue_ingest_all(
                old(self).invites@,
                invited@.map_values(|s: String| s@),
            ),
            final(self).rooms@ == old(self).rooms@,
            final(self).roster@ == old(self).roster@,
            final(self).bot_id@ == old(self).bot_id@,
    {
        let ghost q0 = self.invites@;
        let ghost ids = invited@.map_values(|s: String| s@);
        let n = invited.len();
        let mut i: usize = 0;
        proof {
            assert(ids.skip(0) =~= ids);
        }
        while i < n
            invariant
                self.wf(),
                n == invited@.len(),
                ids == invited@.map_values(|s: String| s@),
                i <= n,
                queue_ingest_all(q0, ids) == queue_ingest_all(self.invites@, ids.skip(i as int)),
                self.rooms@ == old(self).rooms@,
                self.roster@ == old(self).roster@,
                self.bot_id@ == old(self).bot_id@,
            decreases n - i,
        {
            let ghost pre = self.invites@;
            proof {
                assert(ids.skip(i as int)[0] == ids[i as int]);
                assert(ids[i as int] == invited@[i as int]@);
                assert(ids.skip(i as int).drop_first() =~= ids.skip(i + 1 as int));
            }
            self.invites.ingest_invite(&invited[i]);
            proof {
                assert(self.invites@ == queue_ingest(pre, ids[i as int]));
            }
            i = i + 1;
        }
        proof {
            assert(ids.skip(n as int) =~= Seq::<Seq<char>>::empty());
        }
    }

    /// The rooms whose joins the caller must now attempt, in queue order.
    pub fn pending_invites(&self) -> (r: Vec<String>)
        ensures
            r@.map_values(|s: String| s@) == self.invites@.map_values(
                |e: PendingInviteV| e.room_id,
            ),
    {
        self.invites.pending_rooms()
    }

    /// Book the join outcomes of one retry cycle: successes leave the
    /// queue and get a metadata entry, failures use up one attempt.
    /// Reports whether anything changed (a room was joined).
    pub fn apply_join_outcomes(&mut self, outcomes: &Vec<bool>) -> (changed: bool)
        requires
            old(self).wf(),
            outcomes@.len() == old(self).invites@.len(),
        ensures
            final(self).wf(),
            final(self).invites@ == tick_result(old(self).invites@, outcomes@),
            final(self).rooms@ == store_ensure_all(
                old(self).rooms@,
                tick_succeeded(old(self).invites@, outcomes@),
            ),
            changed == (tick_succeeded(old(self).invites@, outcomes@).len() > 0),
            final(self).roster@ == old(self).roster@,
            final(self).bot_id@ == old(self).bot_id@,
    {
        let ghost rooms0 = self.rooms@;
        let ghost succ = tick_succeeded(self.invites@, outcomes@);
        let joined = self.invites.retry_tick(outcomes);
        let n = joined.len();
        let mut i: usize = 0;
        proof {
            assert(succ.skip(0) =~= succ);
        }
        while i < n
            invariant
                self.rooms.wf(),
                self.invites.wf(),
                n == succ.len(),
                joined@.map_values(|s: String| s@) == succ,
                i <= n,
                store_ensure_all(rooms0, succ) == store_ensure_all(
                    self.rooms@,
                    succ.skip(i as int),
                ),
                self.invites@ == tick_result(old(self).invites@, outcomes@),
                self.roster@ == old(self).roster@,
                self.bot_id@ == old(self).bot_id@,
            decreases n - i,
        {
            let ghost pre = self.rooms@;
            proof {
                assert(succ.skip(i as int)[0] == succ[i as int]);
                assert(succ[i as int] == joined@[i as int]@);
                assert(succ.skip(i as int).drop_first() =~= succ.skip(i + 1 as int));
            }
            self.rooms.ensure_room(&joined[i]);
            proof {
                assert(self.rooms@ == store_ensure(pre, succ[i as int]));
            }
            i = i + 1;
        }
        proof {
            assert(succ.skip(n as int) =~= Seq::<Seq<char>>::empty());
        }
        n > 0
    }

    /// Fold one joined room's state section into the store.
    fn process_state_events(&mut self, room_id: &String, events: &Vec<StateEvent>) -> (r: (
        Vec<Effect>,
        bool,
    ))
        requires
            old(self).wf(),
        ensures
            final(self).wf(),
            ({
                let s = spec_state_events(
                    old(self).rooms@,
                    old(self).roster@,
                    old(self).bot_id@,
                    room_id@,
                    events@.map_values(|e: StateEvent| e@),
                );
                &&& final(self).rooms@ == s.rooms
                &&& r.0@.map_values(|e: Effect| e@) == s.effects
                &&& r.1 == s.changed
            }),
            final(self).invites@ == old(self).invites@,
            final(self).roster@ == old(self).roster@,
            final(self).bot_id@ == old(self).bot_id@,
    {
        let ghost rooms0 = self.rooms@;
        let ghost roster0 = self.roster@;
        let ghost bot0 = self.bot_id@;
        let ghost rid = room_id@;
        let ghost evs = events@.map_values(|e: StateEvent| e@);
        let mut effects: Vec<Effect> = Vec::new();
        let mut changed = false;
        let n = events.len();
        let mut i: usize = 0;
        proof {
            assert(evs.skip(0) =~= evs);
        }
        while i < n
            invariant
                self.wf(),
                n == evs.len(),
                evs == events@.map_values(|e: StateEvent| e@),
                rid == room_id@,
                i <= n,
                self.roster@ == roster0,
                self.bot_id@ == bot0,
                self.invites@ == old(self).invites@,
                spec_state_events(rooms0, roster0, bot0, rid, evs) == ({
                    let s = spec_state_events(self.rooms@, roster0, bot0, rid, evs.skip(i as int));
                    SyncOutcome {
                        rooms: s.rooms,
                        roster: roster0,
                        effects: effects@.map_values(|e: Effect| e@) + s.effects,
                        changed: changed || s.changed,
                    }
                }),
            decreases n - i,
        {
            let ghost pre = self.rooms@;
            proof {
                assert(evs.skip(i as int)[0] == evs[i as int]);
                assert(evs[i as int] == events@[i as int]@);
                assert(evs.skip(i as int).drop_first() =~= evs.skip(i + 1 as int));
            }
            let ev = &events[i];
            let mut me = member_effect(&self.roster, &self.bot_id, room_id, ev);
            let c = self.rooms.apply(room_id, ev);
            proof {
                assert(self.rooms@ == store_apply(pre, rid, ev@));
            }
            let ghost efs_pre = effects@.map_values(|e: Effect| e@);
            effects.append(&mut me);
            changed = changed || c;
            proof {
                let s_next = spec_state_events(
                    self.rooms@,
                    roster0,
                    bot0,
                    rid,
                    evs.skip(i + 1 as int),
                );
                assert(effects@.map_values(|e: Effect| e@) + s_next.effects =~= efs_pre + (
                spec_member_effects(roster0, bot0, rid, evs[i as int]) + s_next.effects));
            }
            i = i + 1;
        }
        proof {
            assert(evs.skip(n as int) =~= Seq::<StateEventV>::empty());
            assert(effects@.map_values(|e: Effect| e@) + Seq::<EffectV>::empty() =~= effects@.map_values(
                |e: Effect| e@,
            ));
        }
        (effects, changed)
    }

    /// Fold one joined room's timeline: relay messages, route commands,
    /// apply state changes, in delivery order.
    fn process_timeline(
        &mut self,
        room_id: &String,
        events: &Vec<TimelineEvent>,
        handle_messages: bool,
    ) -> (r: (Vec<Effect>, bool))
        requires
            old(self).wf(),
        ensures
            final(self).wf(),
            ({
                let s = spec_timeline(
                    old(self).rooms@,
                    old(self).roster@,
                    old(self).bot_id@,
                    room_id@,
                    events@.map_values(|e: TimelineEvent| e@),
                    handle_messages,
                );
                &&& final(self).rooms@ == s.rooms
                &&& final(self).roster@ == s.roster
                &&& r.0@.map_values(|e: Effect| e@) == s.effects
                &&& r.1 == s.changed
            }),
            final(self).invites@ == old(self).invites@,
            final(self).bot_id@ == old(self).bot_id@,
    {
        let ghost rooms0 = self.rooms@;
        let ghost roster0 = self.roster@;
        let ghost bot0 = self.bot_id@;
        let ghost rid = room_id@;
        let ghost evs = events@.map_values(|e: TimelineEvent| e@);
        let mut effects: Vec<Effect> = Vec::new();
        let mut changed = false;
        let n = events.len();
        let mut i: usize = 0;
        proof {
            assert(evs.skip(0) =~= evs);
        }
        while i < n
            invariant
                self.wf(),
                n == evs.len(),
                evs == events@.map_values(|e: TimelineEvent| e@),
                rid == room_id@,
                i <= n,
                self.bot_id@ == bot0,
                self.invites@ == old(self).invites@,
                spec_timeline(rooms0, roster0, bot0, rid, evs, handle_messages) == ({
                    let s = spec_timeline(
                        self.rooms@,
                        self.roster@,
                        bot0,
                        rid,
                        evs.skip(i as int),
                        handle_messages,
                    );
                    SyncOutcome {
                        rooms: s.rooms,
                        roster: s.roster,
                        effects: effects@.map_values(|e: Effect| e@) + s.effects,
                        changed: changed || s.changed,
                    }
                }),
            decreases n - i,
        {
            let ghost pre_rooms = self.rooms@;
            let ghost pre_roster = self.roster@;
            proof {
                assert(evs.skip(i as int)[0] == evs[i as int]);
                assert(evs[i as int] == events@[i as int]@);
                assert(evs.skip(i as int).drop_first() =~= evs.skip(i + 1 as int));
            }
            let ghost step = spec_timeline_step(
                pre_rooms,
                pre_roster,
                bot0,
                rid,
                evs[i as int],
                handle_messages,
            );
            let ev = &events[i];
            let mut step_effects: Vec<Effect> = Vec::new();
            match ev {
                TimelineEvent::Message { sender, text } => {
                    self.rooms.ensure_room(room_id);
                    proof {
                        assert(self.rooms@ == store_ensure(pre_rooms, rid));
                    }
                    if handle_messages {
                        let (room_name, room_alias) = match self.rooms.info_for(room_id) {
                            Some(info) => (clone_opt(&info.name), clone_opt(&info.alias)),
                            None => (None, None),
                        };
                        step_effects.push(
                            Effect::RelayMessage {
                                room_id: room_id.clone(),
                                room_name,
                                room_alias,
                                sender: sender.clone(),
                                text: clone_opt(text),
                            },
                        );
                        match text {
                            Some(t) => {
                                let mut routed = handle(
                                    &mut self.roster,
                                    &self.bot_id,
                                    room_id,
                                    sender,
                                    t,
                                );
                                step_effects.append(&mut routed);
                            },
                            None => {},
                        }
                        proof {
                            assert(step_effects@.map_values(|e: Effect| e@) =~= step.effects);
                        }
                    }
                },
                TimelineEvent::State { event } => {
                    let mut me = member_effect(&self.roster, &self.bot_id, room_id, event);
                    let c = self.rooms.apply(room_id, event);
                    step_effects.append(&mut me);
                    changed = changed || c;
                    proof {
                        assert(self.rooms@ == store_apply(pre_rooms, rid, event@));
                        assert(step_effects@.map_values(|e: Effect| e@) =~= step.effects);
                    }
                },
                TimelineEvent::Other => {
                    self.rooms.ensure_room(room_id);
                    proof {
                        assert(self.rooms@ == store_ensure(pre_rooms, rid));
                        assert(step_effects@.map_values(|e: Effect| e@) =~= step.effects);
                    }
                },
            }
            let ghost efs_pre = effects@.map_values(|e: Effect| e@);
            effects.append(&mut step_effects);
            proof {
                let s_next = spec_timeline(
                    self.rooms@,
                    self.roster@,
                    bot0,
                    rid,
                    evs.skip(i + 1 as int),
                    handle_messages,
                );
                assert(effects@.map_values(|e: Effect| e@) + s_next.effects =~= efs_pre + (
                step.effects + s_next.effects));
            }
            i = i + 1;
        }
        proof {
            assert(evs.skip(n as int) =~= Seq::<TimelineEventV>::empty());
            assert(effects@.map_values(|e: Effect| e@) + Seq::<EffectV>::empty() =~= effects@.map_values(
                |e: Effect| e@,
            ));
        }
        (effects, changed)
    }

    /// One joined room of a batch: state section, then timeline.
    pub fn process_joined_room(&mut self, room: &JoinedRoom, handle_messages: bool) -> (r: (
        Vec<Effect>,
        bool,
    ))
        requires
            old(self).wf(),
        ensures
            final(self).wf(),
            ({
                let s = spec_joined_room(
                    old(self).rooms@,
                    old(self).roster@,
                    old(self).bot_id@,
                    room@,
                    handle_messages,
                );
                &&& final(self).rooms@ == s.rooms
                &&& final(self).roster@ == s.roster
                &&& r.0@.map_values(|e: Effect| e@) == s.effects
                &&& r.1 == s.changed
            }),
            final(self).invites@ == old(self).invites@,
            final(self).bot_id@ == old(self).bot_id@,
    {
        let (mut effects, state_changed) = self.process_state_events(
            &room.room_id,
            &room.state_events,
        );
        let (mut timeline_effects, timeline_changed) = self.process_timeline(
            &room.room_id,
            &room.timeline_events,
            handle_messages,
        );
        effects.append(&mut timeline_effects);
        proof {
            let s = spec_joined_room(
                old(self).rooms@,
                old(self).roster@,
                old(self).bot_id@,
                room@,
                handle_messages,
            );
            assert(effects@.map_values(|e: Effect| e@) =~= s.effects);
        }
        (effects, state_changed || timeline_changed)
    }

    /// Everything a batch does after its joins were attempted: book the
    /// join outcomes, fold every joined room, and close with at most one
    /// "publish room list" effect — exactly one when this batch changed
    /// any room metadata or joined a room, none otherwise.
    pub fn finish_batch(
        &mut self,
        outcomes: &Vec<bool>,
        joined: &Vec<JoinedRoom>,
        handle_messages: bool,
    ) -> (effects: Vec<Effect>)
        requires
            old(self).wf(),
            outcomes@.len() == old(self).invites@.len(),
        ensures
            final(self).wf(),
            final(self).invites@ == tick_result(old(self).invites@, outcomes@),
            ({
                let succ = tick_succeeded(old(self).invites@, outcomes@);
                let s = spec_joined_rooms(
                    store_ensure_all(old(self).rooms@, succ),
                    old(self).roster@,
                    old(self).bot_id@,
                    joined@.map_values(|r: JoinedRoom| r@),
                    handle_messages,
                );
                let any_change = succ.len() > 0 || s.changed;
                &&& final(self).rooms@ == s.rooms
                &&& final(self).roster@ == s.roster
                &&& effects@.map_values(|e: Effect| e@) == s.effects + (if any_change {
                    seq![EffectV::PublishRooms { rooms: s.rooms }]
                } else {
                    Seq::<EffectV>::empty()
                })
            }),
            final(self).bot_id@ == old(self).bot_id@,
    {
        let ghost roster0 = self.roster@;
        let ghost bot0 = self.bot_id@;
        let ghost batch = joined@.map_values(|r: JoinedRoom| r@);
        let joined_changed = self.apply_join_outcomes(outcomes);
        let ghost rooms1 = self.rooms@;
        let mut effects: Vec<Effect> = Vec::new();
        let mut rooms_changed = false;
        let n = joined.len();
        let mut i: usize = 0;
        proof {
            assert(batch.skip(0) =~= batch);
        }
        while i < n
            invariant
                self.wf(),
                n == batch.len(),
                batch == joined@.map_values(|r: JoinedRoom| r@),
                i <= n,
                self.bot_id@ == bot0,
                self.invites@ == tick_result(old(self).invites@, outcomes@),
                spec_joined_rooms(rooms1, roster0, bot0, batch, handle_messages) == ({
                    let s = spec_joined_rooms(
                        self.rooms@,
                        self.roster@,
                        bot0,
                        batch.skip(i as int),
                        handle_messages,
                    );
                    SyncOutcome {
                        rooms: s.rooms,
                        roster: s.roster,
                        effects: effects@.map_values(|e: Effect| e@) + s.effects,
                        changed: rooms_changed || s.changed,
                    }
                }),
            decreases n - i,
        {
            let ghost pre_rooms = self.rooms@;
            let ghost pre_roster = self.roster@;
            proof {
                assert(batch.skip(i as int)[0] == batch[i as int]);
                assert(batch[i as int] == joined@[i as int]@);
                assert(batch.skip(i as int).drop_first() =~= batch.skip(i + 1 as int));
            }
            let (mut room_effects, room_changed) = self.process_joined_room(
                &joined[i],
                handle_messages,
            );
            let ghost efs_pre = effects@.map_values(|e: Effect| e@);
            effects.append(&mut room_effects);
            rooms_changed = rooms_changed || room_changed;
            proof {
                let s_next = spec_joined_rooms(
                    self.rooms@,
                    self.roster@,
                    bot0,
                    batch.skip(i + 1 as int),
                    handle_messages,
                );
                assert(effects@.map_values(|e: Effect| e@) + s_next.effects =~= efs_pre + (
                spec_joined_room(
                    pre_rooms,
                    pre_roster,
                    bot0,
                    batch[i as int],
                    handle_messages,
                ).effects + s_next.effects));
            }
            i = i + 1;
        }
        let changed = joined_changed || rooms_changed;
        proof {
            assert(batch.skip(n as int) =~= Seq::<JoinedRoomV>::empty());
            assert(effects@.map_values(|e: Effect| e@) + Seq::<EffectV>::empty() =~= effects@.map_values(
                |e: Effect| e@,
            ));
        }
        if changed {
            effects.push(Effect::PublishRooms { rooms: self.rooms.snapshot() });
        }
        proof {
            let succ = tick_succeeded(old(self).invites@, outcomes@);
            let s = spec_joined_rooms(
                store_ensure_all(old(self).rooms@, succ),
                roster0,
                bot0,
                batch,
                handle_messages,
            );
            let any_change = succ.len() > 0 || s.changed;
            if changed {
                assert(effects@.map_values(|e: Effect| e@) =~= s.effects + seq![
                    EffectV::PublishRooms { rooms: s.rooms },
                ]);
            } else {
                assert(effects@.map_values(|e: Effect| e@) =~= s.effects + Seq::<
                    EffectV,
                >::empty());
            }
        }
        effects
    }
}

} // verus!
