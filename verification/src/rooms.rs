//! Room metadata and the store of per-room state.

use vstd::prelude::*;

verus! {

/// A room's known information.
#[derive(Debug, PartialEq, Eq)]
pub struct RoomInfo {
    /// The room ID.
    pub id: String,
    /// The room's name, if known.
    pub name: Option<String>,
    /// The room's canonical alias, if known.
    pub alias: Option<String>,
    /// The room's topic, if known.
    pub topic: Option<String>,
}

/// Mathematical image of a `RoomInfo`.
pub ghost struct RoomInfoV {
    pub id: Seq<char>,
    pub name: Option<Seq<char>>,
    pub alias: Option<Seq<char>>,
    pub topic: Option<Seq<char>>,
}

/// View of an optional string as an optional character sequence.
pub open spec fn opt_view(o: Option<String>) -> Option<Seq<char>> {
    match o {
        Some(s) => Some(s@),
        None => None,
    }
}

impl View for RoomInfo {
    type V = RoomInfoV;

    open spec fn view(&self) -> RoomInfoV {
        RoomInfoV {
            id: self.id@,
            name: opt_view(self.name),
            alias: opt_view(self.alias),
            topic: opt_view(self.topic),
        }
    }
}

impl RoomInfo {
    /// A fresh entry for a room that was just observed: only the ID is known.
    pub fn new_default(id: &String) -> (r: RoomInfo)
        ensures
            r@ == default_room_info(id@),
    {
        RoomInfo { id: id.clone(), name: None, alias: None, topic: None }
    }

    /// An exact copy; unlike a derived `Clone`, its contract says so.
    pub fn duplicate(&self) -> (r: RoomInfo)
        ensures
            r@ == self@,
    {
        RoomInfo {
            id: self.id.clone(),
            name: match &self.name {
                Some(s) => Some(s.clone()),
                None => None,
            },
            alias: match &self.alias {
                Some(s) => Some(s.clone()),
                None => None,
            },
            topic: match &self.topic {
                Some(s) => Some(s.clone()),
                None => None,
            },
        }
    }
}

/// The metadata a room starts out with: an ID and nothing else.
pub open spec fn default_room_info(id: Seq<char>) -> RoomInfoV {
    RoomInfoV { id: id, name: None, alias: None, topic: None }
}

/// A state event of a room, reduced to what the bot reads from it.
#[derive(Debug, PartialEq, Eq)]
pub enum StateEvent {
    /// The canonical-alias event; an absent alias clears the field.
    CanonicalAlias { alias: Option<String> },
    /// The room-name event; an absent name clears the field.
    Name { name: Option<String> },
    /// The room-topic event.
    Topic { topic: String },
    /// A membership event: `joined` is true when the user entered the room.
    Member { sender: String, joined: bool },
    /// Any event kind the bot does not react to.
    Unknown,
}

/// Mathematical image of a `StateEvent`.
pub ghost enum StateEventV {
    CanonicalAlias { alias: Option<Seq<char>> },
    Name { name: Option<Seq<char>> },
    Topic { topic: Seq<char> },
    Member { sender: Seq<char>, joined: bool },
    Unknown,
}

impl View for StateEvent {
    type V = StateEventV;

    open spec fn view(&self) -> StateEventV {
        match self {
            StateEvent::CanonicalAlias { alias } => StateEventV::CanonicalAlias {
                alias: opt_view(*alias),
            },
            StateEvent::Name { name } => StateEventV::Name { name: opt_view(*name) },
            StateEvent::Topic { topic } => StateEventV::Topic { topic: topic@ },
            StateEvent::Member { sender, joined } => StateEventV::Member {
                sender: sender@,
                joined: *joined,
            },
            StateEvent::Unknown => StateEventV::Unknown,
        }
    }
}

/// How a single state event rewrites a room's metadata.
///
/// Alias, name and topic events overwrite their field (alias and name may
/// clear it); membership and unknown events leave the metadata alone.
pub open spec fn apply_event(info: RoomInfoV, ev: StateEventV) -> RoomInfoV {
    match ev {
        StateEventV::CanonicalAlias { alias } => RoomInfoV {
            id: info.id,
            name: info.name,
            alias: alias,
            topic: info.topic,
        },
        StateEventV::Name { name } => RoomInfoV {
            id: info.id,
            name: name,
            alias: info.alias,
            topic: info.topic,
        },
        StateEventV::Topic { topic } => RoomInfoV {
            id: info.id,
            name: info.name,
            alias: info.alias,
            topic: Some(topic),
        },
        StateEventV::Member { .. } => info,
        StateEventV::Unknown => info,
    }
}

/// Whether an event counts as a room-metadata change for publish coalescing.
///
/// Membership events and unknown events never do, even though a membership
/// event may trigger a permission side effect.
pub open spec fn is_metadata_event(ev: StateEventV) -> bool {
    match ev {
        StateEventV::CanonicalAlias { .. } => true,
        StateEventV::Name { .. } => true,
        StateEventV::Topic { .. } => true,
        StateEventV::Member { .. } => false,
        StateEventV::Unknown => false,
    }
}

/// Applying the same state event twice leaves the metadata where one
/// application put it: every event writes values that do not depend on the
/// fields it overwrites.
pub proof fn lemma_apply_event_idempotent(info: RoomInfoV, ev: StateEventV)
    ensures
        apply_event(apply_event(info, ev), ev) == apply_event(info, ev),
{
}

/// An event never changes which room the metadata belongs to.
pub proof fn lemma_apply_event_keeps_id(info: RoomInfoV, ev: StateEventV)
    ensures
        apply_event(info, ev).id == info.id,
{
}

/// Whether some entry of `rooms` describes the room `id`.
pub open spec fn store_has(rooms: Seq<RoomInfoV>, id: Seq<char>) -> bool {
    exists|i: int| 0 <= i < rooms.len() && rooms[i].id == id
}

/// The entries after one state event for `id`: the first matching entry is
/// rewritten in place, a missing one is appended, started from the default.
pub open spec fn store_apply(rooms: Seq<RoomInfoV>, id: Seq<char>, ev: StateEventV) -> Seq<
    RoomInfoV,
>
    decreases rooms.len(),
{
    if rooms.len() == 0 {
        seq![apply_event(default_room_info(id), ev)]
    } else if rooms[0].id == id {
        seq![apply_event(rooms[0], ev)] + rooms.drop_first()
    } else {
        seq![rooms[0]] + store_apply(rooms.drop_first(), id, ev)
    }
}

/// The entries once the room `id` is guaranteed one: unchanged when
/// present, the default appended when not.
pub open spec fn store_ensure(rooms: Seq<RoomInfoV>, id: Seq<char>) -> Seq<RoomInfoV>
    decreases rooms.len(),
{
    if rooms.len() == 0 {
        seq![default_room_info(id)]
    } else if rooms[0].id == id {
        rooms
    } else {
        seq![rooms[0]] + store_ensure(rooms.drop_first(), id)
    }
}

/// The entries once each room of `ids` is guaranteed one, in order.
pub open spec fn store_ensure_all(rooms: Seq<RoomInfoV>, ids: Seq<Seq<char>>) -> Seq<RoomInfoV>
    decreases ids.len(),
{
    if ids.len() == 0 {
        rooms
    } else {
        store_ensure_all(store_ensure(rooms, ids[0]), ids.drop_first())
    }
}

/// The metadata held for the room `id`, the default when none is held.
pub open spec fn store_get(rooms: Seq<RoomInfoV>, id: Seq<char>) -> RoomInfoV
    decreases rooms.len(),
{
    if rooms.len() == 0 {
        default_room_info(id)
    } else if rooms[0].id == id {
        rooms[0]
    } else {
        store_get(rooms.drop_first(), id)
    }
}

/// Where the entries are unique, `store_apply` is the in-place update of
/// the one matching entry, or an append when there is none.
pub proof fn lemma_store_apply_indexed(rooms: Seq<RoomInfoV>, id: Seq<char>, ev: StateEventV)
    requires
        forall|i: int, j: int| 0 <= i < j < rooms.len() ==> rooms[i].id != rooms[j].id,
    ensures
        !store_has(rooms, id) ==> store_apply(rooms, id, ev) == rooms.push(
            apply_event(default_room_info(id), ev),
        ),
        forall|i: int|
            0 <= i < rooms.len() && rooms[i].id == id ==> store_apply(rooms, id, ev)
                == rooms.update(i, apply_event(rooms[i], ev)),
    decreases rooms.len(),
{
    if rooms.len() == 0 {
        assert(store_apply(rooms, id, ev) =~= rooms.push(
            apply_event(default_room_info(id), ev),
        ));
    } else if rooms[0].id == id {
        assert(store_apply(rooms, id, ev) =~= rooms.update(0, apply_event(rooms[0], ev)));
        assert(forall|i: int| 0 < i < rooms.len() ==> rooms[i].id != id);
    } else {
        let rest = rooms.drop_first();
        assert(forall|i: int, j: int| 0 <= i < j < rest.len() ==> rest[i].id != rest[j].id)
            by {
            assert(forall|i: int| 0 <= i < rest.len() ==> rest[i] == rooms[i + 1]);
        }
        lemma_store_apply_indexed(rest, id, ev);
        if store_has(rooms, id) {
            let i = choose|i: int| 0 <= i < rooms.len() && rooms[i].id == id;
            assert(rest[i - 1].id == id);
            assert forall|i: int| 0 <= i < rooms.len() && rooms[i].id == id implies store_apply(
                rooms,
                id,
                ev,
            ) == rooms.update(i, apply_event(rooms[i], ev)) by {
                assert(rest[i - 1].id == id);
                assert(store_apply(rooms, id, ev) =~= rooms.update(
                    i,
                    apply_event(rooms[i], ev),
                ));
            }
        } else {
            assert(!store_has(rest, id)) by {
                if store_has(rest, id) {
                    let k = choose|k: int| 0 <= k < rest.len() && rest[k].id == id;
                    assert(rooms[k + 1].id == id);
                }
            }
            assert(store_apply(rooms, id, ev) =~= rooms.push(
                apply_event(default_room_info(id), ev),
            ));
        }
    }
}

/// Where the entries are unique, `store_ensure` leaves a present room's
/// entries unchanged and appends the default for an absent one.
pub proof fn lemma_store_ensure_indexed(rooms: Seq<RoomInfoV>, id: Seq<char>)
    requires
        forall|i: int, j: int| 0 <= i < j < rooms.len() ==> rooms[i].id != rooms[j].id,
    ensures
        store_has(rooms, id) ==> store_ensure(rooms, id) == rooms,
        !store_has(rooms, id) ==> store_ensure(rooms, id) == rooms.push(default_room_info(id)),
    decreases rooms.len(),
{
    if rooms.len() == 0 {
        assert(store_ensure(rooms, id) =~= rooms.push(default_room_info(id)));
    } else if rooms[0].id == id {
    } else {
        let rest = rooms.drop_first();
        assert(forall|i: int, j: int| 0 <= i < j < rest.len() ==> rest[i].id != rest[j].id)
            by {
            assert(forall|i: int| 0 <= i < rest.len() ==> rest[i] == rooms[i + 1]);
        }
        lemma_store_ensure_indexed(rest, id);
        if store_has(rooms, id) {
            let i = choose|i: int| 0 <= i < rooms.len() && rooms[i].id == id;
            assert(rest[i - 1].id == id);
            assert(store_has(rest, id));
            assert(store_ensure(rooms, id) =~= rooms);
        } else {
            assert(!store_has(rest, id)) by {
                if store_has(rest, id) {
                    let k = choose|k: int| 0 <= k < rest.len() && rest[k].id == id;
                    assert(rooms[k + 1].id == id);
                }
            }
            assert(store_ensure(rooms, id) =~= rooms.push(default_room_info(id)));
        }
    }
}

/// Where the entries are unique, `store_get` reads the matching entry.
pub proof fn lemma_store_get_indexed(rooms: Seq<RoomInfoV>, id: Seq<char>)
    requires
        forall|i: int, j: int| 0 <= i < j < rooms.len() ==> rooms[i].id != rooms[j].id,
    ensures
        !store_has(rooms, id) ==> store_get(rooms, id) == default_room_info(id),
        forall|i: int|
            0 <= i < rooms.len() && rooms[i].id == id ==> store_get(rooms, id) == rooms[i],
    decreases rooms.len(),
{
    if rooms.len() == 0 {
    } else if rooms[0].id == id {
        assert(forall|i: int| 0 < i < rooms.len() ==> rooms[i].id != id);
    } else {
        let rest = rooms.drop_first();
        assert(forall|i: int, j: int| 0 <= i < j < rest.len() ==> rest[i].id != rest[j].id)
            by {
            assert(forall|i: int| 0 <= i < rest.len() ==> rest[i] == rooms[i + 1]);
        }
        lemma_store_get_indexed(rest, id);
        if store_has(rooms, id) {
            assert forall|i: int| 0 <= i < rooms.len() && rooms[i].id == id implies store_get(
                rooms,
                id,
            ) == rooms[i] by {
                assert(rest[i - 1].id == id);
            }
        } else {
            assert(!store_has(rest, id)) by {
                if store_has(rest, id) {
                    let k = choose|k: int| 0 <= k < rest.len() && rest[k].id == id;
                    assert(rooms[k + 1].id == id);
                }
            }
        }
    }
}

/// Applying the same state event twice to the store yields the very same
/// entries as applying it once: the second application rewrites the one
/// affected entry with the values it already has.
pub proof fn lemma_store_apply_idempotent(rooms: Seq<RoomInfoV>, id: Seq<char>, ev: StateEventV)
    requires
        forall|i: int, j: int| 0 <= i < j < rooms.len() ==> rooms[i].id != rooms[j].id,
    ensures
        store_apply(store_apply(rooms, id, ev), id, ev) == store_apply(rooms, id, ev),
{
    let r1 = store_apply(rooms, id, ev);
    lemma_store_apply_indexed(rooms, id, ev);
    if store_has(rooms, id) {
        let i = choose|i: int| 0 <= i < rooms.len() && rooms[i].id == id;
        assert(r1 == rooms.update(i, apply_event(rooms[i], ev)));
        lemma_apply_event_keeps_id(rooms[i], ev);
        assert(forall|k: int, l: int| 0 <= k < l < r1.len() ==> r1[k].id != r1[l].id);
        lemma_store_apply_indexed(r1, id, ev);
        assert(store_apply(r1, id, ev) == r1.update(i, apply_event(r1[i], ev)));
        lemma_apply_event_idempotent(rooms[i], ev);
        assert(r1.update(i, apply_event(r1[i], ev)) =~= r1);
    } else {
        let fresh = apply_event(default_room_info(id), ev);
        lemma_apply_event_keeps_id(default_room_info(id), ev);
        assert(r1 == rooms.push(fresh));
        let n = rooms.len() as int;
        assert(forall|k: int| 0 <= k < n ==> r1[k] == rooms[k]);
        assert(r1[n] == fresh && fresh.id == id);
        assert(forall|k: int, l: int| 0 <= k < l < r1.len() ==> r1[k].id != r1[l].id) by {
            if exists|k: int, l: int| 0 <= k < l < r1.len() && r1[k].id == r1[l].id {
                let (k, l) = choose|k: int, l: int|
                    0 <= k < l < r1.len() && r1[k].id == r1[l].id;
                if l == n {
                    assert(rooms[k].id == id);
                    assert(store_has(rooms, id));
                }
            }
        }
        lemma_store_apply_indexed(r1, id, ev);
        assert(store_apply(r1, id, ev) == r1.update(n, apply_event(r1[n], ev)));
        lemma_apply_event_idempotent(default_room_info(id), ev);
        assert(r1.update(n, apply_event(r1[n], ev)) =~= r1);
    }
}

/// In-memory mapping from room ID to room metadata, updated from state
/// events.  Entries are created on first observation and never removed.
pub struct RoomStateStore {
    pub rooms: Vec<RoomInfo>,
}

impl View for RoomStateStore {
    type V = Seq<RoomInfoV>;

    open spec fn view(&self) -> Seq<RoomInfoV> {
        self.rooms@.map_values(|r: RoomInfo| r@)
    }
}

impl RoomStateStore {
    /// No two entries describe the same room.
    pub open spec fn wf(&self) -> bool {
        forall|i: int, j: int|
            0 <= i < j < self@.len() ==> self@[i].id != self@[j].id
    }

    /// Whether some entry holds metadata for the room `id`.
    pub open spec fn has_room(&self, id: Seq<char>) -> bool {
        exists|i: int| 0 <= i < self@.len() && self@[i].id == id
    }

    pub fn new() -> (r: RoomStateStore)
        ensures
            r@ == Seq::<RoomInfoV>::empty(),
            r.wf(),
    {
        RoomStateStore { rooms: Vec::new() }
    }

    /// The position of the entry for `id`, if any.
    fn lookup(&self, id: &String) -> (r: Option<usize>)
        ensures
            match r {
                Some(i) => i < self@.len() && self@[i as int].id == id@,
                None => !self.has_room(id@),
            },
    {
        let n = self.rooms.len();
        let mut i: usize = 0;
        while i < n
            invariant
                n == self@.len(),
                i <= n,
                forall|j: int| 0 <= j < i ==> self@[j].id != id@,
            decreases n - i,
        {
            if self.rooms[i].id == *id {
                return Some(i);
            }
            i = i + 1;
        }
        None
    }

    /// Make sure an entry for `id` exists, creating the default one if not.
    ///
    /// Returns true when a new entry was created.
    pub fn ensure_room(&mut self, id: &String) -> (created: bool)
        requires
            old(self).wf(),
        ensures
            final(self).wf(),
            created == !old(self).has_room(id@),
            created ==> final(self)@ == old(self)@.push(default_room_info(id@)),
            !created ==> final(self)@ == old(self)@,
            final(self)@ == store_ensure(old(self)@, id@),
            final(self).has_room(id@),
    {
        proof {
            lemma_store_ensure_indexed(old(self)@, id@);
        }
        match self.lookup(id) {
            Some(i) => {
                proof {
                    assert(self@[i as int].id == id@);
                    assert(store_ensure(old(self)@, id@) == old(self)@);
                }
                false
            }
            None => {
                self.rooms.push(RoomInfo::new_default(id));
                proof {
                    assert(self@ =~= old(self)@.push(default_room_info(id@)));
                    assert(self@[old(self)@.len() as int].id == id@);
                }
                true
            }
        }
    }

    /// Apply one state event to the room `id`.
    ///
    /// A missing entry is first created with default metadata; the entry is
    /// then rewritten by `apply_event`.  Returns whether the event counts as
    /// a metadata change for publish coalescing.
    pub fn apply(&mut self, id: &String, ev: &StateEvent) -> (changed: bool)
        requires
            old(self).wf(),
        ensures
            final(self).wf(),
            changed == is_metadata_event(ev@),
            forall|i: int|
                0 <= i < old(self)@.len() && old(self)@[i].id == id@ ==> final(self)@
                    == old(self)@.update(i, apply_event(old(self)@[i], ev@)),
            !old(self).has_room(id@) ==> final(self)@ == old(self)@.push(
                apply_event(default_room_info(id@), ev@),
            ),
            final(self)@ == store_apply(old(self)@, id@, ev@),
            final(self).has_room(id@),
            final(self)@.len() == old(self)@.len() + (if old(self).has_room(id@) { 0int } else { 1int }),
    {
        let ghost pre = self@;
        let idx: usize = match self.lookup(id) {
            Some(i) => i,
            None => {
                let n = self.rooms.len();
                self.rooms.push(RoomInfo::new_default(id));
                proof {
                    assert(self@ =~= pre.push(default_room_info(id@)));
                }
                n
            }
        };
        let ghost mid = self@;
        let ghost before = self@[idx as int];
        let entry = &mut self.rooms[idx];
        let changed: bool;
        match ev {
            StateEvent::CanonicalAlias { alias } => {
                entry.alias = match alias {
                    Some(a) => Some(a.clone()),
                    None => None,
                };
                changed = true;
            }
            StateEvent::Name { name } => {
                entry.name = match name {
                    Some(n) => Some(n.clone()),
                    None => None,
                };
                changed = true;
            }
            StateEvent::Topic { topic } => {
                entry.topic = Some(topic.clone());
                changed = true;
            }
            StateEvent::Member { .. } => {
                changed = false;
            }
            StateEvent::Unknown => {
                changed = false;
            }
        }
        proof {
            assert(self@ =~= mid.update(idx as int, apply_event(before, ev@)));
            lemma_apply_event_keeps_id(before, ev@);
            lemma_store_apply_indexed(pre, id@, ev@);
            if pre.len() > 0 && exists|i: int| 0 <= i < pre.len() && pre[i].id == id@ {
                let i = choose|i: int| 0 <= i < pre.len() && pre[i].id == id@;
                assert(self@ =~= pre.update(i, apply_event(pre[i], ev@)));
                assert(store_apply(pre, id@, ev@) == pre.update(i, apply_event(pre[i], ev@)));
            } else {
                assert(self@ =~= pre.push(apply_event(default_room_info(id@), ev@)));
            }
            assert(self@ == store_apply(pre, id@, ev@));
            assert(self@[idx as int].id == id@);
        }
        changed
    }

    /// The metadata held for the room, if any.
    pub fn info_for(&self, id: &String) -> (r: Option<&RoomInfo>)
        requires
            self.wf(),
        ensures
            match r {
                Some(info) => store_has(self@, id@) && info@ == store_get(self@, id@),
                None => !store_has(self@, id@),
            },
    {
        match self.lookup(id) {
            Some(i) => {
                proof {
                    lemma_store_get_indexed(self@, id@);
                }
                Some(&self.rooms[i])
            }
            None => None,
        }
    }

    /// How many rooms the store knows about.
    pub fn len(&self) -> (n: usize)
        ensures
            n == self@.len(),
    {
        self.rooms.len()
    }

    /// The entry at a position, in observation order.
    pub fn room_at(&self, i: usize) -> (r: &RoomInfo)
        requires
            i < self@.len(),
        ensures
            r@ == self@[i as int],
    {
        &self.rooms[i]
    }

    /// A copy of every entry, in observation order: the payload of the
    /// "publish room list" side effect.
    pub fn snapshot(&self) -> (r: Vec<RoomInfo>)
        ensures
            r@.map_values(|x: RoomInfo| x@) == self@,
    {
        let mut out: Vec<RoomInfo> = Vec::new();
        let n = self.rooms.len();
        let mut i: usize = 0;
        while i < n
            invariant
                n == self@.len(),
                i <= n,
                out@.len() == i,
                forall|j: int| 0 <= j < i ==> #[trigger] out@[j]@ == self@[j],
            decreases n - i,
        {
            out.push(self.rooms[i].duplicate());
            proof {
                assert(self@[i as int] == self.rooms@[i as int]@);
            }
            i = i + 1;
        }
        proof {
            assert(out@.map_values(|x: RoomInfo| x@) =~= self@);
        }
        out
    }
}

} // verus!
