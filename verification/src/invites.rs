//! Bounded-attempt retry bookkeeping for room-join acknowledgements.
//!
//! A room invitation is tried immediately; failures put the room into the
//! queue.  Every poll cycle each held entry loses one attempt and is tried
//! again; success removes the entry, exhaustion removes it silently.

use vstd::prelude::*;

verus! {

/// Tries a room gets in total: one immediate join plus three retries.
pub const INVITE_ATTEMPTS: u32 = 4;

/// An invitation whose join has not succeeded yet.
#[derive(Debug, PartialEq, Eq)]
pub struct PendingInvite {
    /// The invited room.
    pub room_id: String,
    /// Joins still allowed, the one of the current cycle included.
    pub attempts_remaining: u32,
}

/// Mathematical image of a `PendingInvite`.
pub ghost struct PendingInviteV {
    pub room_id: Seq<char>,
    pub attempts_remaining: u32,
}

impl View for PendingInvite {
    type V = PendingInviteV;

    open spec fn view(&self) -> PendingInviteV {
        PendingInviteV { room_id: self.room_id@, attempts_remaining: self.attempts_remaining }
    }
}

/// No two entries concern the same room.
pub open spec fn unique_ids(q: Seq<PendingInviteV>) -> bool {
    forall|i: int, j: int| 0 <= i < j < q.len() ==> q[i].room_id != q[j].room_id
}

/// Whether some entry concerns the room `id`.
pub open spec fn has_id(q: Seq<PendingInviteV>, id: Seq<char>) -> bool {
    exists|i: int| 0 <= i < q.len() && q[i].room_id == id
}

/// The retry budget the queue holds for `id`, reading front to back.
pub open spec fn attempts_of(q: Seq<PendingInviteV>, id: Seq<char>) -> Option<u32>
    decreases q.len(),
{
    if q.len() == 0 {
        None
    } else if q[0].room_id == id {
        Some(q[0].attempts_remaining)
    } else {
        attempts_of(q.drop_first(), id)
    }
}

/// One retry cycle over the whole queue: entry `i` loses one attempt and is
/// tried with outcome `oc[i]`; successes and exhausted entries leave, the
/// rest stay in order with the smaller budget.
pub open spec fn tick_result(q: Seq<PendingInviteV>, oc: Seq<bool>) -> Seq<PendingInviteV>
    decreases q.len(),
{
    if q.len() == 0 {
        Seq::empty()
    } else {
        let rest = tick_result(q.drop_first(), oc.drop_first());
        if oc[0] || q[0].attempts_remaining <= 1 {
            rest
        } else {
            seq![
                PendingInviteV {
                    room_id: q[0].room_id,
                    attempts_remaining: (q[0].attempts_remaining - 1) as u32,
                },
            ] + rest
        }
    }
}

/// The rooms whose join succeeded in a cycle, in queue order.
pub open spec fn tick_succeeded(q: Seq<PendingInviteV>, oc: Seq<bool>) -> Seq<Seq<char>>
    decreases q.len(),
{
    if q.len() == 0 {
        Seq::empty()
    } else {
        let rest = tick_succeeded(q.drop_first(), oc.drop_first());
        if oc[0] {
            seq![q[0].room_id] + rest
        } else {
            rest
        }
    }
}

/// A room surviving a cycle was in the queue before it.
proof fn lemma_tick_ids(q: Seq<PendingInviteV>, oc: Seq<bool>, id: Seq<char>)
    requires
        has_id(tick_result(q, oc), id),
    ensures
        has_id(q, id),
    decreases q.len(),
{
    if q.len() == 0 {
    } else {
        let rest = tick_result(q.drop_first(), oc.drop_first());
        let t = tick_result(q, oc);
        if oc[0] || q[0].attempts_remaining <= 1 {
            lemma_tick_ids(q.drop_first(), oc.drop_first(), id);
            let i = choose|i: int|
                0 <= i < q.drop_first().len() && q.drop_first()[i].room_id == id;
            assert(q[i + 1].room_id == id);
        } else {
            let i = choose|i: int| 0 <= i < t.len() && t[i].room_id == id;
            if i == 0 {
                assert(q[0].room_id == id);
            } else {
                assert(rest[i - 1].room_id == id);
                lemma_tick_ids(q.drop_first(), oc.drop_first(), id);
                let j = choose|j: int|
                    0 <= j < q.drop_first().len() && q.drop_first()[j].room_id == id;
                assert(q[j + 1].room_id == id);
            }
        }
    }
}

/// A cycle keeps entries about distinct rooms distinct.
proof fn lemma_tick_unique(q: Seq<PendingInviteV>, oc: Seq<bool>)
    requires
        unique_ids(q),
    ensures
        unique_ids(tick_result(q, oc)),
    decreases q.len(),
{
    if q.len() == 0 {
    } else {
        assert(unique_ids(q.drop_first())) by {
            assert(forall|i: int, j: int|
                0 <= i < j < q.drop_first().len() ==> q.drop_first()[i].room_id
                    != q.drop_first()[j].room_id) by {
                assert(forall|i: int|
                    0 <= i < q.drop_first().len() ==> q.drop_first()[i] == q[i + 1]);
            }
        }
        lemma_tick_unique(q.drop_first(), oc.drop_first());
        let rest = tick_result(q.drop_first(), oc.drop_first());
        let t = tick_result(q, oc);
        if oc[0] || q[0].attempts_remaining <= 1 {
        } else {
            assert forall|i: int, j: int| 0 <= i < j < t.len() implies t[i].room_id
                != t[j].room_id by {
                if i == 0 {
                    if rest[j - 1].room_id == q[0].room_id {
                        assert(has_id(rest, q[0].room_id));
                        lemma_tick_ids(q.drop_first(), oc.drop_first(), q[0].room_id);
                        let k = choose|k: int|
                            0 <= k < q.drop_first().len() && q.drop_first()[k].room_id == q[0].room_id;
                        assert(q[k + 1].room_id == q[0].room_id);
                    }
                } else {
                    assert(rest[i - 1].room_id != rest[j - 1].room_id);
                }
            }
        }
    }
}

/// A cycle keeps every remaining budget between one and the full allowance.
proof fn lemma_tick_range(q: Seq<PendingInviteV>, oc: Seq<bool>)
    requires
        forall|i: int|
            0 <= i < q.len() ==> 1 <= #[trigger] q[i].attempts_remaining <= INVITE_ATTEMPTS,
    ensures
        forall|i: int|
            0 <= i < tick_result(q, oc).len() ==> 1 <= #[trigger] tick_result(q, oc)[
                i
            ].attempts_remaining <= INVITE_ATTEMPTS,
    decreases q.len(),
{
    if q.len() == 0 {
    } else {
        assert(forall|i: int|
            0 <= i < q.drop_first().len() ==> 1 <= #[trigger] q.drop_first()[
                i
            ].attempts_remaining <= INVITE_ATTEMPTS) by {
            assert(forall|i: int|
                0 <= i < q.drop_first().len() ==> q.drop_first()[i] == q[i + 1]);
        }
        lemma_tick_range(q.drop_first(), oc.drop_first());
        let t = tick_result(q, oc);
        let rest = tick_result(q.drop_first(), oc.drop_first());
        if oc[0] || q[0].attempts_remaining <= 1 {
            assert forall|i: int|
                0 <= i < t.len() implies 1 <= #[trigger] t[i].attempts_remaining
                <= INVITE_ATTEMPTS by {
                assert(t[i] == rest[i]);
            }
        } else {
            assert forall|i: int|
                0 <= i < t.len() implies 1 <= #[trigger] t[i].attempts_remaining
                <= INVITE_ATTEMPTS by {
                if i > 0 {
                    assert(t[i] == rest[i - 1]);
                }
            }
        }
    }
}

/// The budget an entry is found with: at the position the queue holds it.
proof fn lemma_attempts_at_index(q: Seq<PendingInviteV>, id: Seq<char>, i: int)
    requires
        unique_ids(q),
        0 <= i < q.len(),
        q[i].room_id == id,
    ensures
        attempts_of(q, id) == Some(q[i].attempts_remaining),
    decreases q.len(),
{
    if i == 0 {
    } else {
        assert(q[0].room_id != id);
        assert(unique_ids(q.drop_first()) && q.drop_first()[i - 1] == q[i]) by {
            assert(forall|k: int|
                0 <= k < q.drop_first().len() ==> q.drop_first()[k] == q[k + 1]);
        }
        lemma_attempts_at_index(q.drop_first(), id, i - 1);
    }
}

/// A room the queue does not hold has no budget.
proof fn lemma_attempts_absent(q: Seq<PendingInviteV>, id: Seq<char>)
    requires
        !has_id(q, id),
    ensures
        attempts_of(q, id) is None,
    decreases q.len(),
{
    if q.len() == 0 {
    } else {
        assert(q[0].room_id != id);
        assert(!has_id(q.drop_first(), id)) by {
            if has_id(q.drop_first(), id) {
                let k = choose|k: int|
                    0 <= k < q.drop_first().len() && q.drop_first()[k].room_id == id;
                assert(q[k + 1].room_id == id);
            }
        }
        lemma_attempts_absent(q.drop_first(), id);
    }
}

/// What one failing cycle does to a single room's budget: one attempt less,
/// and the entry is gone once nothing remains.
proof fn lemma_tick_fail_attempts(q: Seq<PendingInviteV>, oc: Seq<bool>, id: Seq<char>)
    requires
        unique_ids(q),
        oc.len() == q.len(),
        forall|i: int| 0 <= i < oc.len() ==> !oc[i],
    ensures
        attempts_of(tick_result(q, oc), id) == match attempts_of(q, id) {
            Some(a) => if a > 1 {
                Some((a - 1) as u32)
            } else {
                None::<u32>
            },
            None => None::<u32>,
        },
    decreases q.len(),
{
    if q.len() == 0 {
    } else {
        assert(!oc[0]);
        assert(unique_ids(q.drop_first())) by {
            assert(forall|k: int|
                0 <= k < q.drop_first().len() ==> q.drop_first()[k] == q[k + 1]);
        }
        assert(forall|i: int| 0 <= i < oc.drop_first().len() ==> !oc.drop_first()[i]);
        lemma_tick_fail_attempts(q.drop_first(), oc.drop_first(), id);
        let t = tick_result(q, oc);
        let rest = tick_result(q.drop_first(), oc.drop_first());
        if q[0].attempts_remaining <= 1 {
            assert(t == rest);
            if q[0].room_id == id {
                // the entry leaves; no later entry can speak of `id`
                assert(attempts_of(q.drop_first(), id) is None) by {
                    if has_id(q.drop_first(), id) {
                        let k = choose|k: int|
                            0 <= k < q.drop_first().len() && q.drop_first()[k].room_id == id;
                        assert(q[k + 1].room_id == id);
                        assert(false);
                    }
                    lemma_attempts_absent(q.drop_first(), id);
                }
            }
        } else {
            let head = PendingInviteV {
                room_id: q[0].room_id,
                attempts_remaining: (q[0].attempts_remaining - 1) as u32,
            };
            assert(t == seq![head] + rest);
            assert(t.len() > 0 && t[0] == head);
            assert(t.drop_first() =~= rest);
            if q[0].room_id == id {
                assert(attempts_of(t, id) == Some(head.attempts_remaining));
            } else {
                assert(attempts_of(t, id) == attempts_of(rest, id));
            }
        }
    }
}

/// A succeeding cycle removes the room: its entry never lingers after a
/// successful join.
pub proof fn lemma_tick_success_removes(q: Seq<PendingInviteV>, oc: Seq<bool>, i: int)
    requires
        unique_ids(q),
        oc.len() == q.len(),
        0 <= i < q.len(),
        oc[i],
    ensures
        !has_id(tick_result(q, oc), q[i].room_id),
    decreases q.len(),
{
    let id = q[i].room_id;
    if has_id(tick_result(q, oc), id) {
        let rest = tick_result(q.drop_first(), oc.drop_first());
        assert(unique_ids(q.drop_first())) by {
            assert(forall|k: int|
                0 <= k < q.drop_first().len() ==> q.drop_first()[k] == q[k + 1]);
        }
        if i == 0 {
            // the head succeeded, so the head entry is gone; a survivor with
            // the same room would have to come from the tail
            let j = choose|j: int|
                0 <= j < tick_result(q, oc).len() && tick_result(q, oc)[j].room_id == id;
            if oc[0] || q[0].attempts_remaining <= 1 {
                assert(rest[j].room_id == id);
                assert(has_id(rest, id));
            } else {
                assert(false);
            }
            lemma_tick_ids(q.drop_first(), oc.drop_first(), id);
            let k = choose|k: int|
                0 <= k < q.drop_first().len() && q.drop_first()[k].room_id == id;
            assert(q[k + 1].room_id == id);
            assert(false);
        } else {
            assert(q.drop_first()[i - 1] == q[i]);
            lemma_tick_success_removes(q.drop_first(), oc.drop_first(), i - 1);
            let j = choose|j: int|
                0 <= j < tick_result(q, oc).len() && tick_result(q, oc)[j].room_id == id;
            if oc[0] || q[0].attempts_remaining <= 1 {
                assert(rest[j].room_id == id);
            } else {
                if j == 0 {
                    assert(q[0].room_id == id);
                    assert(false);
                } else {
                    assert(rest[j - 1].room_id == id);
                }
            }
            assert(has_id(rest, id));
            assert(false);
        }
    }
}

/// The queue once the invitation for `id` arrived: a pending room has its
/// budget reset in place, a new one is appended with the full allowance.
pub open spec fn queue_ingest(q: Seq<PendingInviteV>, id: Seq<char>) -> Seq<PendingInviteV>
    decreases q.len(),
{
    if q.len() == 0 {
        seq![PendingInviteV { room_id: id, attempts_remaining: INVITE_ATTEMPTS }]
    } else if q[0].room_id == id {
        seq![PendingInviteV { room_id: id, attempts_remaining: INVITE_ATTEMPTS }]
            + q.drop_first()
    } else {
        seq![q[0]] + queue_ingest(q.drop_first(), id)
    }
}

/// The queue once every invitation of `ids` arrived, in order.
pub open spec fn queue_ingest_all(q: Seq<PendingInviteV>, ids: Seq<Seq<char>>) -> Seq<
    PendingInviteV,
>
    decreases ids.len(),
{
    if ids.len() == 0 {
        q
    } else {
        queue_ingest_all(queue_ingest(q, ids[0]), ids.drop_first())
    }
}

/// Where the rooms are unique, `queue_ingest` is the in-place reset of the
/// one matching entry, or an append when there is none.
pub proof fn lemma_queue_ingest_indexed(q: Seq<PendingInviteV>, id: Seq<char>)
    requires
        unique_ids(q),
    ensures
        !has_id(q, id) ==> queue_ingest(q, id) == q.push(
            PendingInviteV { room_id: id, attempts_remaining: INVITE_ATTEMPTS },
        ),
        forall|i: int|
            0 <= i < q.len() && q[i].room_id == id ==> queue_ingest(q, id) == q.update(
                i,
                PendingInviteV { room_id: id, attempts_remaining: INVITE_ATTEMPTS },
            ),
    decreases q.len(),
{
    if q.len() == 0 {
        assert(queue_ingest(q, id) =~= q.push(
            PendingInviteV { room_id: id, attempts_remaining: INVITE_ATTEMPTS },
        ));
    } else if q[0].room_id == id {
        assert(queue_ingest(q, id) =~= q.update(
            0,
            PendingInviteV { room_id: id, attempts_remaining: INVITE_ATTEMPTS },
        ));
        assert(forall|i: int| 0 < i < q.len() ==> q[i].room_id != id);
    } else {
        let rest = q.drop_first();
        assert(unique_ids(rest)) by {
            assert(forall|i: int| 0 <= i < rest.len() ==> rest[i] == q[i + 1]);
        }
        lemma_queue_ingest_indexed(rest, id);
        if has_id(q, id) {
            assert forall|i: int| 0 <= i < q.len() && q[i].room_id == id implies queue_ingest(
                q,
                id,
            ) == q.update(
                i,
                PendingInviteV { room_id: id, attempts_remaining: INVITE_ATTEMPTS },
            ) by {
                assert(i != 0);
                assert(rest[i - 1].room_id == id);
                assert(queue_ingest(rest, id) == rest.update(
                    i - 1,
                    PendingInviteV { room_id: id, attempts_remaining: INVITE_ATTEMPTS },
                ));
                assert(queue_ingest(q, id) =~= q.update(
                    i,
                    PendingInviteV { room_id: id, attempts_remaining: INVITE_ATTEMPTS },
                ));
            }
        } else {
            assert(!has_id(rest, id)) by {
                if has_id(rest, id) {
                    let k = choose|k: int| 0 <= k < rest.len() && rest[k].room_id == id;
                    assert(q[k + 1].room_id == id);
                }
            }
            assert(queue_ingest(q, id) =~= q.push(
                PendingInviteV { room_id: id, attempts_remaining: INVITE_ATTEMPTS },
            ));
        }
    }
}

/// The queue after `j` poll cycles in which every join failed.
pub open spec fn after_failed_ticks(q: Seq<PendingInviteV>, j: nat) -> Seq<PendingInviteV>
    decreases j,
{
    if j == 0 {
        q
    } else {
        let prev = after_failed_ticks(q, (j - 1) as nat);
        tick_result(prev, Seq::new(prev.len(), |i: int| false))
    }
}

/// Failing cycles keep the queue's rooms distinct.
proof fn lemma_after_failed_ticks_unique(q: Seq<PendingInviteV>, j: nat)
    requires
        unique_ids(q),
    ensures
        unique_ids(after_failed_ticks(q, j)),
    decreases j,
{
    if j == 0 {
    } else {
        lemma_after_failed_ticks_unique(q, (j - 1) as nat);
        let prev = after_failed_ticks(q, (j - 1) as nat);
        lemma_tick_unique(prev, Seq::new(prev.len(), |i: int| false));
    }
}

/// Bounded retries: a room held with a budget of `k` attempts survives the
/// first `k - 1` all-failure poll cycles, each time with one attempt less,
/// and is removed by the `k`-th failure — exactly then, never before.
pub proof fn lemma_retry_budget(q: Seq<PendingInviteV>, id: Seq<char>, k: u32, j: nat)
    requires
        unique_ids(q),
        attempts_of(q, id) == Some(k),
        1 <= k,
    ensures
        j < k ==> attempts_of(after_failed_ticks(q, j), id) == Some((k - j) as u32),
        j >= k ==> attempts_of(after_failed_ticks(q, j), id) is None,
    decreases j,
{
    if j == 0 {
    } else {
        lemma_retry_budget(q, id, k, (j - 1) as nat);
        lemma_after_failed_ticks_unique(q, (j - 1) as nat);
        let prev = after_failed_ticks(q, (j - 1) as nat);
        lemma_tick_fail_attempts(prev, Seq::new(prev.len(), |i: int| false), id);
    }
}

/// The queue of invitations whose join is still owed a retry.
pub struct InviteRetryQueue {
    pub entries: Vec<PendingInvite>,
}

impl View for InviteRetryQueue {
    type V = Seq<PendingInviteV>;

    open spec fn view(&self) -> Seq<PendingInviteV> {
        self.entries@.map_values(|e: PendingInvite| e@)
    }
}

impl InviteRetryQueue {
    /// Rooms are unique and every held budget is between one and the full
    /// allowance.
    pub open spec fn wf(&self) -> bool {
        &&& unique_ids(self@)
        &&& forall|i: int|
            0 <= i < self@.len() ==> 1 <= #[trigger] self@[i].attempts_remaining
                <= INVITE_ATTEMPTS
    }

    pub fn new() -> (r: InviteRetryQueue)
        ensures
            r@ == Seq::<PendingInviteV>::empty(),
            r.wf(),
    {
        InviteRetryQueue { entries: Vec::new() }
    }

    /// How many rooms are waiting for a retry.
    pub fn len(&self) -> (n: usize)
        ensures
            n == self@.len(),
    {
        self.entries.len()
    }

    /// The position of the entry for `id`, if any.
    fn lookup(&self, id: &String) -> (r: Option<usize>)
        ensures
            match r {
                Some(i) => i < self@.len() && self@[i as int].room_id == id@,
                None => !has_id(self@, id@),
            },
    {
        let n = self.entries.len();
        let mut i: usize = 0;
        while i < n
            invariant
                n == self@.len(),
                i <= n,
                forall|j: int| 0 <= j < i ==> self@[j].room_id != id@,
            decreases n - i,
        {
            if self.entries[i].room_id == *id {
                return Some(i);
            }
            i = i + 1;
        }
        None
    }

    /// Whether the room still waits for a join.
    pub fn is_pending(&self, id: &String) -> (r: bool)
        ensures
            r == has_id(self@, id@),
    {
        self.lookup(id).is_some()
    }

    /// The retry budget currently held for the room.
    pub fn attempts_for(&self, id: &String) -> (r: Option<u32>)
        requires
            self.wf(),
        ensures
            r == attempts_of(self@, id@),
    {
        match self.lookup(id) {
            Some(i) => {
                proof {
                    lemma_attempts_at_index(self@, id@, i as int);
                }
                Some(self.entries[i].attempts_remaining)
            }
            None => {
                proof {
                    lemma_attempts_absent(self@, id@);
                }
                None
            }
        }
    }

    /// A newly arrived invitation enters the queue with the full allowance;
    /// a re-invited room that is already pending has its counter reset (the
    /// latest invite wins over the older budget).
    pub fn ingest_invite(&mut self, id: &String)
        requires
            old(self).wf(),
        ensures
            final(self).wf(),
            forall|i: int|
                0 <= i < old(self)@.len() && old(self)@[i].room_id == id@ ==> final(self)@
                    == old(self)@.update(
                    i,
                    PendingInviteV { room_id: id@, attempts_remaining: INVITE_ATTEMPTS },
                ),
            !has_id(old(self)@, id@) ==> final(self)@ == old(self)@.push(
                PendingInviteV { room_id: id@, attempts_remaining: INVITE_ATTEMPTS },
            ),
            final(self)@ == queue_ingest(old(self)@, id@),
    {
        let ghost pre = self@;
        proof {
            lemma_queue_ingest_indexed(pre, id@);
        }
        match self.lookup(id) {
            Some(i) => {
                let entry = &mut self.entries[i];
                entry.attempts_remaining = INVITE_ATTEMPTS;
                proof {
                    assert(self@ =~= pre.update(
                        i as int,
                        PendingInviteV { room_id: id@, attempts_remaining: INVITE_ATTEMPTS },
                    ));
                    assert(queue_ingest(pre, id@) == pre.update(
                        i as int,
                        PendingInviteV { room_id: id@, attempts_remaining: INVITE_ATTEMPTS },
                    ));
                    assert(forall|j: int|
                        0 <= j < pre.len() && pre[j].room_id == id@ ==> j == i as int);
                }
            }
            None => {
                self.entries.push(
                    PendingInvite { room_id: id.clone(), attempts_remaining: INVITE_ATTEMPTS },
                );
                proof {
                    assert(self@ =~= pre.push(
                        PendingInviteV { room_id: id@, attempts_remaining: INVITE_ATTEMPTS },
                    ));
                }
            }
        }
    }

    /// The outcome of an immediate join tried on an invitation: success
    /// removes any pending entry and reports the join; failure books the
    /// room with the remaining retries.
    pub fn record_invite(&mut self, id: &String, join_ok: bool) -> (joined: bool)
        requires
            old(self).wf(),
        ensures
            final(self).wf(),
            joined == join_ok,
            join_ok ==> !has_id(final(self)@, id@),
            join_ok && !has_id(old(self)@, id@) ==> final(self)@ == old(self)@,
            join_ok ==> forall|i: int|
                0 <= i < old(self)@.len() && old(self)@[i].room_id == id@ ==> final(self)@
                    == old(self)@.remove(i),
            !join_ok ==> forall|i: int|
                0 <= i < old(self)@.len() && old(self)@[i].room_id == id@ ==> final(self)@
                    == old(self)@.update(
                    i,
                    PendingInviteV {
                        room_id: id@,
                        attempts_remaining: (INVITE_ATTEMPTS - 1) as u32,
                    },
                ),
            !join_ok && !has_id(old(self)@, id@) ==> final(self)@ == old(self)@.push(
                PendingInviteV { room_id: id@, attempts_remaining: (INVITE_ATTEMPTS - 1) as u32 },
            ),
    {
        let ghost pre = self@;
        if join_ok {
            match self.lookup(id) {
                Some(i) => {
                    self.entries.remove(i);
                    proof {
                        assert(self@ =~= pre.remove(i as int));
                        assert(forall|j: int|
                            0 <= j < pre.len() && pre[j].room_id == id@ ==> j == i as int);
                        if has_id(self@, id@) {
                            let k = choose|k: int|
                                0 <= k < self@.len() && self@[k].room_id == id@;
                            if k < i as int {
                                assert(pre[k].room_id == id@);
                            } else {
                                assert(pre[k + 1].room_id == id@);
                            }
                            assert(false);
                        }
                    }
                }
                None => {}
            }
            true
        } else {
            let ghost pre = self@;
            match self.lookup(id) {
                Some(i) => {
                    let entry = &mut self.entries[i];
                    entry.attempts_remaining = INVITE_ATTEMPTS - 1;
                    proof {
                        assert(self@ =~= pre.update(
                            i as int,
                            PendingInviteV {
                                room_id: id@,
                                attempts_remaining: (INVITE_ATTEMPTS - 1) as u32,
                            },
                        ));
                        assert(forall|j: int|
                            0 <= j < pre.len() && pre[j].room_id == id@ ==> j == i as int);
                    }
                }
                None => {
                    self.entries.push(
                        PendingInvite {
                            room_id: id.clone(),
                            attempts_remaining: INVITE_ATTEMPTS - 1,
                        },
                    );
                    proof {
                        assert(self@ =~= pre.push(
                            PendingInviteV {
                                room_id: id@,
                                attempts_remaining: (INVITE_ATTEMPTS - 1) as u32,
                            },
                        ));
                    }
                }
            }
            false
        }
    }

    /// The rooms a poll cycle must try to join, in queue order.
    pub fn pending_rooms(&self) -> (r: Vec<String>)
        ensures
            r@.map_values(|s: String| s@) == self@.map_values(|e: PendingInviteV| e.room_id),
    {
        let mut out: Vec<String> = Vec::new();
        let n = self.entries.len();
        let mut i: usize = 0;
        while i < n
            invariant
                n == self@.len(),
                i <= n,
                out@.len() == i,
                forall|j: int| 0 <= j < i ==> #[trigger] out@[j]@ == self@[j].room_id,
            decreases n - i,
        {
            out.push(self.entries[i].room_id.clone());
            proof {
                assert(self@[i as int] == self.entries@[i as int]@);
            }
            i = i + 1;
        }
        proof {
            assert(out@.map_values(|s: String| s@) =~= self@.map_values(
                |e: PendingInviteV| e.room_id,
            ));
        }
        out
    }

    /// One poll cycle: entry `i` was tried with outcome `outcomes[i]` after
    /// losing one attempt.  Returns the rooms whose join succeeded, in queue
    /// order; they now have metadata entries owed to them.
    pub fn retry_tick(&mut self, outcomes: &Vec<bool>) -> (joined: Vec<String>)
        requires
            old(self).wf(),
            outcomes@.len() == old(self)@.len(),
        ensures
            final(self).wf(),
            final(self)@ == tick_result(old(self)@, outcomes@),
            joined@.map_values(|s: String| s@) == tick_succeeded(old(self)@, outcomes@),
    {
        let ghost pre = self@;
        let mut kept: Vec<PendingInvite> = Vec::new();
        let mut joined: Vec<String> = Vec::new();
        let n = self.entries.len();
        let mut i: usize = 0;
        proof {
            assert(pre.skip(0) =~= pre);
            assert(outcomes@.skip(0) =~= outcomes@);
        }
        while i < n
            invariant
                n == pre.len(),
                pre == self@,
                outcomes@.len() == n,
                i <= n,
                tick_result(pre, outcomes@) =~= kept@.map_values(|e: PendingInvite| e@)
                    + tick_result(pre.skip(i as int), outcomes@.skip(i as int)),
                tick_succeeded(pre, outcomes@) =~= joined@.map_values(|s: String| s@)
                    + tick_succeeded(pre.skip(i as int), outcomes@.skip(i as int)),
            decreases n - i,
        {
            let ghost qs = pre.skip(i as int);
            let ghost os = outcomes@.skip(i as int);
            proof {
                assert(qs[0] == pre[i as int]);
                assert(os[0] == outcomes@[i as int]);
                assert(qs.drop_first() =~= pre.skip(i + 1 as int));
                assert(os.drop_first() =~= outcomes@.skip(i + 1 as int));
            }
            let e = &self.entries[i];
            if outcomes[i] {
                joined.push(e.room_id.clone());
            } else if e.attempts_remaining > 1 {
                kept.push(
                    PendingInvite {
                        room_id: e.room_id.clone(),
                        attempts_remaining: e.attempts_remaining - 1,
                    },
                );
            }
            proof {
                assert(tick_result(pre, outcomes@) =~= kept@.map_values(|e: PendingInvite| e@)
                    + tick_result(pre.skip(i + 1 as int), outcomes@.skip(i + 1 as int)));
                assert(tick_succeeded(pre, outcomes@) =~= joined@.map_values(|s: String| s@)
                    + tick_succeeded(pre.skip(i + 1 as int), outcomes@.skip(i + 1 as int)));
            }
            i = i + 1;
        }
        proof {
            assert(pre.skip(n as int) =~= Seq::<PendingInviteV>::empty());
            assert(outcomes@.skip(n as int) =~= Seq::<bool>::empty());
            assert(kept@.map_values(|e: PendingInvite| e@) =~= tick_result(pre, outcomes@));
            assert(joined@.map_values(|s: String| s@) =~= tick_succeeded(pre, outcomes@));
        }
        self.entries = kept;
        proof {
            lemma_tick_unique(pre, outcomes@);
            lemma_tick_range(pre, outcomes@);
        }
        joined
    }
}

} // verus!
