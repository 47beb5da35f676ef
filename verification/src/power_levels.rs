//! Computing a room's new power levels.
//!
//! The bot reads the room's current levels, keeps them, raises every user
//! it promotes to the admin level, and pins a fixed set of event types to
//! their moderation defaults unless the room already set them.

use vstd::prelude::*;
use vstd::string::StringExecFns;

verus! {

/// The level granted to promoted users.
pub const ADMIN_LEVEL: u32 = 100;

/// One key (a user ID or an event type) with its power level.
#[derive(Debug, PartialEq, Eq)]
pub struct PowerLevel {
    pub key: String,
    pub level: u32,
}

/// Mathematical image of a `PowerLevel`.
pub ghost struct PowerLevelV {
    pub key: Seq<char>,
    pub level: u32,
}

impl View for PowerLevel {
    type V = PowerLevelV;

    open spec fn view(&self) -> PowerLevelV {
        PowerLevelV { key: self.key@, level: self.level }
    }
}

/// View of a list of levels.
pub open spec fn levels_view(v: Seq<PowerLevel>) -> Seq<PowerLevelV> {
    v.map_values(|p: PowerLevel| p@)
}

/// The level a list holds for `key`, reading front to back.
pub open spec fn level_of(m: Seq<PowerLevelV>, key: Seq<char>) -> Option<u32>
    decreases m.len(),
{
    if m.len() == 0 {
        None
    } else if m[0].key == key {
        Some(m[0].level)
    } else {
        level_of(m.drop_first(), key)
    }
}

/// The list with `key` set to `level`: the first matching entry rewritten
/// in place, or an entry appended when there is none.
pub open spec fn set_level(m: Seq<PowerLevelV>, key: Seq<char>, level: u32) -> Seq<PowerLevelV>
    decreases m.len(),
{
    if m.len() == 0 {
        seq![PowerLevelV { key: key, level: level }]
    } else if m[0].key == key {
        seq![PowerLevelV { key: key, level: level }] + m.drop_first()
    } else {
        seq![m[0]] + set_level(m.drop_first(), key, level)
    }
}

/// The list with every key of `keys` set to `level`, in order.
pub open spec fn set_levels_all(m: Seq<PowerLevelV>, keys: Seq<Seq<char>>, level: u32) -> Seq<
    PowerLevelV,
>
    decreases keys.len(),
{
    if keys.len() == 0 {
        m
    } else {
        set_levels_all(set_level(m, keys[0], level), keys.drop_first(), level)
    }
}

/// At the first match, `set_level` is the in-place update; with no match
/// it is the append.
proof fn lemma_set_level_indexed(m: Seq<PowerLevelV>, key: Seq<char>, level: u32, i: int)
    requires
        0 <= i <= m.len(),
        forall|j: int| 0 <= j < i ==> m[j].key != key,
        i < m.len() ==> m[i].key == key,
    ensures
        i < m.len() ==> set_level(m, key, level) == m.update(
            i,
            PowerLevelV { key: key, level: level },
        ),
        i == m.len() ==> set_level(m, key, level) == m.push(
            PowerLevelV { key: key, level: level },
        ),
    decreases m.len(),
{
    if m.len() == 0 {
        assert(set_level(m, key, level) =~= m.push(PowerLevelV { key: key, level: level }));
    } else if i == 0 {
        assert(set_level(m, key, level) =~= m.update(
            0,
            PowerLevelV { key: key, level: level },
        ));
    } else {
        let rest = m.drop_first();
        assert(forall|j: int| 0 <= j < rest.len() ==> rest[j] == m[j + 1]);
        lemma_set_level_indexed(rest, key, level, i - 1);
        if i < m.len() {
            assert(set_level(m, key, level) =~= m.update(
                i,
                PowerLevelV { key: key, level: level },
            ));
        } else {
            assert(set_level(m, key, level) =~= m.push(
                PowerLevelV { key: key, level: level },
            ));
        }
    }
}

/// At the first match, `level_of` reads the matching entry; with no match
/// it reads nothing.
proof fn lemma_level_of_indexed(m: Seq<PowerLevelV>, key: Seq<char>, i: int)
    requires
        0 <= i <= m.len(),
        forall|j: int| 0 <= j < i ==> m[j].key != key,
        i < m.len() ==> m[i].key == key,
    ensures
        i < m.len() ==> level_of(m, key) == Some(m[i].level),
        i == m.len() ==> level_of(m, key) is None,
    decreases m.len(),
{
    if m.len() == 0 {
    } else if i == 0 {
    } else {
        let rest = m.drop_first();
        assert(forall|j: int| 0 <= j < rest.len() ==> rest[j] == m[j + 1]);
        lemma_level_of_indexed(rest, key, i - 1);
    }
}

/// Set one key, as `set_level` describes.
fn set_level_exec(m: &mut Vec<PowerLevel>, key: &String, level: u32)
    ensures
        levels_view(final(m)@) == set_level(levels_view(old(m)@), key@, level),
{
    let ghost pre = levels_view(m@);
    let n = m.len();
    let mut i: usize = 0;
    while i < n
        invariant
            n == pre.len(),
            pre == levels_view(m@),
            pre == levels_view(old(m)@),
            i <= n,
            forall|j: int| 0 <= j < i ==> pre[j].key != key@,
        decreases n - i,
    {
        proof {
            assert(pre[i as int] == m@[i as int]@);
        }
        if m[i].key == *key {
            let entry = &mut m[i];
            entry.level = level;
            proof {
                lemma_set_level_indexed(pre, key@, level, i as int);
                assert(levels_view(m@) =~= pre.update(
                    i as int,
                    PowerLevelV { key: key@, level: level },
                ));
            }
            return ;
        }
        i = i + 1;
    }
    m.push(PowerLevel { key: key.clone(), level });
    proof {
        lemma_set_level_indexed(pre, key@, level, n as int);
        assert(levels_view(m@) =~= pre.push(PowerLevelV { key: key@, level: level }));
    }
}

/// The room's user levels once every promoted user is at the admin level:
/// levels the room already holds are kept, the promoted users are set to
/// the admin level, in place where present, appended where not.
pub fn compute_user_levels(current: &Vec<PowerLevel>, promote: &Vec<String>) -> (r: Vec<
    PowerLevel,
>)
    ensures
        levels_view(r@) == set_levels_all(
            levels_view(current@),
            promote@.map_values(|s: String| s@),
            ADMIN_LEVEL,
        ),
{
    let ghost m0 = levels_view(current@);
    let ghost keys = promote@.map_values(|s: String| s@);
    let mut out: Vec<PowerLevel> = Vec::new();
    let n = current.len();
    let mut i: usize = 0;
    while i < n
        invariant
            n == current@.len(),
            i <= n,
            out@.len() == i,
            forall|j: int| 0 <= j < i ==> #[trigger] out@[j]@ == levels_view(current@)[j],
        decreases n - i,
    {
        proof {
            assert(levels_view(current@)[i as int] == current@[i as int]@);
        }
        out.push(PowerLevel { key: current[i].key.clone(), level: current[i].level });
        i = i + 1;
    }
    proof {
        assert(levels_view(out@) =~= m0);
        assert(keys.skip(0) =~= keys);
    }
    let k = promote.len();
    let mut j: usize = 0;
    while j < k
        invariant
            k == promote@.len(),
            keys == promote@.map_values(|s: String| s@),
            j <= k,
            set_levels_all(m0, keys, ADMIN_LEVEL) == set_levels_all(
                levels_view(out@),
                keys.skip(j as int),
                ADMIN_LEVEL,
            ),
        decreases k - j,
    {
        proof {
            assert(keys.skip(j as int)[0] == keys[j as int]);
            assert(keys[j as int] == promote@[j as int]@);
            assert(keys.skip(j as int).drop_first() =~= keys.skip(j + 1 as int));
        }
        set_level_exec(&mut out, &promote[j], ADMIN_LEVEL);
        j = j + 1;
    }
    proof {
        assert(keys.skip(k as int) =~= Seq::<Seq<char>>::empty());
    }
    out
}

/// The event types the bot pins, with their default levels, in the order
/// they are sent.
pub open spec fn spec_event_defaults() -> Seq<PowerLevelV> {
    seq![
        PowerLevelV { key: "m.room.avatar"@, level: 50 },
        PowerLevelV { key: "m.room.canonical_alias"@, level: 50 },
        PowerLevelV { key: "m.room.encrypted"@, level: 100 },
        PowerLevelV { key: "m.room.history_visibility"@, level: 100 },
        PowerLevelV { key: "m.room.name"@, level: 50 },
        PowerLevelV { key: "m.room.power_levels"@, level: 100 },
        PowerLevelV { key: "m.room.server_acl"@, level: 100 },
        PowerLevelV { key: "m.room.tombstone"@, level: 100 },
    ]
}

/// The event levels the bot sends: each pinned event type at its default,
/// except where the room already holds a level for it.
pub open spec fn spec_event_levels(current: Seq<PowerLevelV>) -> Seq<PowerLevelV> {
    spec_event_defaults().map_values(
        |d: PowerLevelV| PowerLevelV {
            key: d.key,
            level: match level_of(current, d.key) {
                Some(l) => l,
                None => d.level,
            },
        },
    )
}

/// The level a list holds for `key`, as `level_of` describes.
fn find_level(m: &Vec<PowerLevel>, key: &String) -> (r: Option<u32>)
    ensures
        r == level_of(levels_view(m@), key@),
{
    let ghost mv = levels_view(m@);
    let n = m.len();
    let mut i: usize = 0;
    while i < n
        invariant
            n == mv.len(),
            mv == levels_view(m@),
            i <= n,
            forall|j: int| 0 <= j < i ==> mv[j].key != key@,
        decreases n - i,
    {
        proof {
            assert(mv[i as int] == m@[i as int]@);
        }
        if m[i].key == *key {
            proof {
                lemma_level_of_indexed(mv, key@, i as int);
            }
            return Some(m[i].level);
        }
        i = i + 1;
    }
    proof {
        lemma_level_of_indexed(mv, key@, n as int);
    }
    None
}

/// One pinned event type's level: the room's, or the default.
fn pinned_level(current: &Vec<PowerLevel>, key: &str, default: u32) -> (r: PowerLevel)
    ensures
        r@ == (PowerLevelV {
            key: key@,
            level: match level_of(levels_view(current@), key@) {
                Some(l) => l,
                None => default,
            },
        }),
{
    let key_string = String::from_str(key);
    let level = match find_level(current, &key_string) {
        Some(l) => l,
        None => default,
    };
    PowerLevel { key: key_string, level }
}

/// The event levels the bot sends, as `spec_event_levels` describes.
pub fn compute_event_levels(current: &Vec<PowerLevel>) -> (r: Vec<PowerLevel>)
    ensures
        levels_view(r@) == spec_event_levels(levels_view(current@)),
{
    let mut out: Vec<PowerLevel> = Vec::new();
    out.push(pinned_level(current, "m.room.avatar", 50));
    out.push(pinned_level(current, "m.room.canonical_alias", 50));
    out.push(pinned_level(current, "m.room.encrypted", 100));
    out.push(pinned_level(current, "m.room.history_visibility", 100));
    out.push(pinned_level(current, "m.room.name", 50));
    out.push(pinned_level(current, "m.room.power_levels", 100));
    out.push(pinned_level(current, "m.room.server_acl", 100));
    out.push(pinned_level(current, "m.room.tombstone", 100));
    proof {
        assert(levels_view(out@) =~= spec_event_levels(levels_view(current@)));
    }
    out
}

} // verus!
