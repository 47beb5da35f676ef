//! The rate-limited background dispatcher, as a state machine.
//!
//! One FIFO queue of deferred tasks, drained by a single consumer that may
//! only take a task when the token bucket grants one.  Tasks are opaque to
//! the core and carried as numeric handles; the caller keeps the work they
//! stand for and performs a task when the dispatcher hands its handle out.

use vstd::prelude::*;
use vstd::arithmetic::div_mod::lemma_fundamental_div_mod;
use vstd::arithmetic::div_mod::lemma_mod_bound;
use vstd::arithmetic::mul::lemma_mul_inequality;

verus! {

/// The error returned from operations on the dispatcher.
#[derive(Clone, Copy, Debug, PartialEq, Eq, Structural)]
pub enum DispatchError {
    /// The consuming side is gone; the task cannot be queued.
    SendError,
}

/// The quota the bot throttles backend traffic to: operations per minute.
pub const DISPATCH_QUOTA_PER_MINUTE: u32 = 60;

/// Nanoseconds in a minute, the refill window of the token bucket.
pub const NANOS_PER_MINUTE: u64 = 60_000_000_000;

/// A token bucket: a capacity of `capacity` tokens, one token growing back
/// every `period` time units, each grant costing one token.
pub struct TokenBucket {
    pub capacity: u32,
    pub period: u64,
    pub tokens: u32,
    /// All refills up to this instant are accounted for.
    pub paid_until: u64,
    /// How many grants the bucket has given out.
    pub granted: Ghost<nat>,
    /// The instant the bucket was created.
    pub origin: Ghost<u64>,
}

impl TokenBucket {
    pub open spec fn spec_capacity(&self) -> u32 {
        self.capacity
    }

    pub open spec fn spec_period(&self) -> u64 {
        self.period
    }

    pub open spec fn spec_tokens(&self) -> u32 {
        self.tokens
    }

    /// The instant up to which refills are accounted for.
    pub open spec fn last_update(&self) -> u64 {
        self.paid_until
    }

    /// How many grants the bucket has given out since it was created.
    pub open spec fn granted_count(&self) -> nat {
        self.granted@
    }

    /// The instant the bucket was created.
    pub open spec fn origin_time(&self) -> u64 {
        self.origin@
    }

    /// The accounting invariant: every grant is paid for either by the
    /// initial burst allowance or by elapsed refill time.
    pub open spec fn wf(&self) -> bool {
        &&& self.capacity >= 1
        &&& self.period >= 1
        &&& self.tokens <= self.capacity
        &&& self.origin@ <= self.paid_until
        &&& self.granted@ * self.period + self.tokens * self.period <= self.capacity
            * self.period + (self.paid_until - self.origin@)
    }

    /// A bucket that starts full at instant `now`.
    pub fn new(capacity: u32, period: u64, now: u64) -> (r: TokenBucket)
        requires
            capacity >= 1,
            period >= 1,
        ensures
            r.wf(),
            r.spec_capacity() == capacity,
            r.spec_period() == period,
            r.spec_tokens() == capacity,
            r.granted_count() == 0,
            r.origin_time() == now,
            r.last_update() == now,
    {
        TokenBucket {
            capacity,
            period,
            tokens: capacity,
            paid_until: now,
            granted: Ghost(0),
            origin: Ghost(now),
        }
    }

    /// A bucket refilling `quota` tokens per minute with a burst allowance
    /// of `quota`, the shape the bot throttles backend posts with.
    pub fn per_minute(quota: u32, now: u64) -> (r: TokenBucket)
        requires
            1 <= quota <= NANOS_PER_MINUTE,
        ensures
            r.wf(),
            r.spec_capacity() == quota,
            r.spec_period() == NANOS_PER_MINUTE as u64 / quota as u64,
            r.granted_count() == 0,
            r.origin_time() == now,
            r.last_update() == now,
    {
        let period = NANOS_PER_MINUTE / (quota as u64);
        proof {
            lemma_fundamental_div_mod(NANOS_PER_MINUTE as int, quota as int);
            lemma_mod_bound(NANOS_PER_MINUTE as int, quota as int);
            let qq = quota as int;
            let nn = NANOS_PER_MINUTE as int;
            if nn / qq < 1 {
                assert(qq * (nn / qq) <= 0) by (nonlinear_arith)
                    requires
                        qq >= 1,
                        nn / qq <= 0,
                ;
                assert(false);
            }
        }
        TokenBucket::new(quota, period, now)
    }

    /// The tokens available at `now`, before any is taken.
    pub open spec fn spec_available(&self, now: u64) -> int {
        let refilled = self.tokens + (now - self.paid_until) as int / self.period as int;
        if refilled > self.capacity {
            self.capacity as int
        } else {
            refilled
        }
    }

    /// Account for the time passed since the last update.
    fn refill(&mut self, now: u64)
        requires
            old(self).wf(),
            old(self).last_update() <= now,
        ensures
            final(self).wf(),
            final(self).spec_capacity() == old(self).spec_capacity(),
            final(self).spec_period() == old(self).spec_period(),
            final(self).granted_count() == old(self).granted_count(),
            final(self).origin_time() == old(self).origin_time(),
            final(self).spec_tokens() == old(self).spec_available(now),
            old(self).last_update() <= final(self).last_update() <= now,
    {
        let elapsed = now - self.paid_until;
        let d = elapsed / self.period;
        let ghost c = self.capacity as int;
        let ghost t = self.tokens as int;
        let ghost p = self.period as int;
        let ghost g = self.granted@ as int;
        let ghost o = self.origin@ as int;
        let ghost paid = self.paid_until as int;
        let ghost e = elapsed as int;
        let ghost dd = d as int;
        proof {
            lemma_fundamental_div_mod(e, p);
            lemma_mod_bound(e, p);
            assert(dd * p <= e) by (nonlinear_arith)
                requires
                    e == p * dd + (e % p),
                    0 <= (e % p),
            ;
        }
        if d >= (self.capacity - self.tokens) as u64 {
            proof {
                // all grants are covered once `capacity - tokens` whole
                // periods passed: the bucket may forget the excess time
                lemma_mul_inequality(c - t, dd, p);
                assert(c * p - t * p == (c - t) * p) by (nonlinear_arith);
            }
            self.tokens = self.capacity;
            self.paid_until = now;
        } else {
            proof {
                assert((t + dd) * p == t * p + dd * p) by (nonlinear_arith);
            }
            self.tokens = self.tokens + (d as u32);
            self.paid_until = self.paid_until + d * self.period;
        }
    }

    /// Take one token if one is available at `now`.
    ///
    /// The caller's clock must be monotone: `now` may not lie before the
    /// bucket's last update.
    pub fn try_acquire(&mut self, now: u64) -> (granted: bool)
        requires
            old(self).wf(),
            old(self).last_update() <= now,
        ensures
            final(self).wf(),
            final(self).spec_capacity() == old(self).spec_capacity(),
            final(self).spec_period() == old(self).spec_period(),
            final(self).origin_time() == old(self).origin_time(),
            old(self).last_update() <= final(self).last_update() <= now,
            granted == (old(self).spec_available(now) >= 1),
            granted ==> {
                &&& final(self).granted_count() == old(self).granted_count() + 1
                &&& final(self).spec_tokens() == old(self).spec_available(now) - 1
            },
            !granted ==> {
                &&& final(self).granted_count() == old(self).granted_count()
                &&& final(self).spec_tokens() == 0
            },
    {
        self.refill(now);
        if self.tokens >= 1 {
            let ghost g = self.granted@ as int;
            let ghost t = self.tokens as int;
            let ghost p = self.period as int;
            self.tokens = self.tokens - 1;
            proof {
                self.granted@ = self.granted@ + 1;
                assert((g + 1) * p + (t - 1) * p == g * p + t * p) by (nonlinear_arith);
            }
            true
        } else {
            false
        }
    }
}

/// Throughput never exceeds the configured quota: however the bucket was
/// driven, the grants handed out by instant `now` stay within the burst
/// capacity plus one per period of the time elapsed since creation.
pub proof fn lemma_throughput_bound(b: TokenBucket, now: u64)
    requires
        b.wf(),
        b.last_update() <= now,
    ensures
        b.granted_count() * b.spec_period() <= b.spec_capacity() * b.spec_period() + (now
            - b.origin_time()),
        b.granted_count() <= b.spec_capacity() + (now - b.origin_time()) as int
            / b.spec_period() as int,
{
    let g = b.granted_count() as int;
    let p = b.spec_period() as int;
    let c = b.spec_capacity() as int;
    let e = now - b.origin_time();
    assert(g * p <= c * p + e);
    assert(g <= c + e / p) by {
        if g > c + e / p {
            assert(g >= c + e / p + 1);
            lemma_mul_inequality(c + e / p + 1, g, p);
            assert((c + e / p + 1) * p <= g * p);
            lemma_fundamental_div_mod(e, p);
            assert((c + e / p + 1) * p == c * p + (e / p) * p + p) by (nonlinear_arith);
            assert((e / p) * p + p > e);
            assert(g * p > c * p + e);
        }
    }
}

/// The queue of deferred tasks: multiple producers submit, one consumer
/// drains in submission order, one task at a time.
pub struct RateLimitedDispatcher {
    pub pending: Vec<u64>,
    pub connected: bool,
    /// Every task ever accepted, in submission order.
    pub submitted: Ghost<Seq<u64>>,
    /// Every task handed out for execution, in that order.
    pub executed: Ghost<Seq<u64>>,
}

impl RateLimitedDispatcher {
    /// What was handed out and what still waits make up exactly what was
    /// accepted, in order.
    pub open spec fn wf(&self) -> bool {
        self.executed@ + self.pending@ == self.submitted@
    }

    /// Every task ever accepted, in submission order.
    pub open spec fn submitted_tasks(&self) -> Seq<u64> {
        self.submitted@
    }

    /// Every task handed out for execution, in execution order.
    pub open spec fn executed_tasks(&self) -> Seq<u64> {
        self.executed@
    }

    /// The tasks accepted and not yet handed out, in submission order.
    pub open spec fn pending_tasks(&self) -> Seq<u64> {
        self.pending@
    }

    /// Whether the consuming side is still attached.
    pub open spec fn is_connected(&self) -> bool {
        self.connected
    }

    pub fn new() -> (r: RateLimitedDispatcher)
        ensures
            r.wf(),
            r.is_connected(),
            r.submitted_tasks() == Seq::<u64>::empty(),
            r.executed_tasks() == Seq::<u64>::empty(),
            r.pending_tasks() == Seq::<u64>::empty(),
    {
        RateLimitedDispatcher {
            pending: Vec::new(),
            connected: true,
            submitted: Ghost(Seq::empty()),
            executed: Ghost(Seq::empty()),
        }
    }

    /// Tear the consuming side down: later submissions are dropped.
    pub fn disconnect(&mut self)
        ensures
            !final(self).is_connected(),
            final(self).wf() == old(self).wf(),
            final(self).submitted_tasks() == old(self).submitted_tasks(),
            final(self).executed_tasks() == old(self).executed_tasks(),
            final(self).pending_tasks() == old(self).pending_tasks(),
    {
        self.connected = false;
    }

    /// Enqueue a task without blocking.  Fails only when the consuming side
    /// is gone; the queue itself is unbounded.
    pub fn submit(&mut self, task: u64) -> (r: Result<(), DispatchError>)
        requires
            old(self).wf(),
        ensures
            final(self).wf(),
            final(self).is_connected() == old(self).is_connected(),
            final(self).executed_tasks() == old(self).executed_tasks(),
            old(self).is_connected() ==> {
                &&& r == Ok::<(), DispatchError>(())
                &&& final(self).submitted_tasks() == old(self).submitted_tasks().push(task)
                &&& final(self).pending_tasks() == old(self).pending_tasks().push(task)
            },
            !old(self).is_connected() ==> {
                &&& r == Err::<(), DispatchError>(DispatchError::SendError)
                &&& final(self).submitted_tasks() == old(self).submitted_tasks()
                &&& final(self).pending_tasks() == old(self).pending_tasks()
            },
    {
        if self.connected {
            self.pending.push(task);
            proof {
                self.submitted@ = self.submitted@.push(task);
                assert(self.executed@ + self.pending@ =~= self.submitted@);
            }
            Ok(())
        } else {
            Err(DispatchError::SendError)
        }
    }

    /// Enqueue a task, fire-and-forget: a task that cannot be queued any
    /// more is dropped, and no error reaches the caller.
    pub fn launch(&mut self, task: u64) -> (accepted: bool)
        requires
            old(self).wf(),
        ensures
            final(self).wf(),
            final(self).is_connected() == old(self).is_connected(),
            final(self).executed_tasks() == old(self).executed_tasks(),
            accepted == old(self).is_connected(),
            accepted ==> {
                &&& final(self).submitted_tasks() == old(self).submitted_tasks().push(task)
                &&& final(self).pending_tasks() == old(self).pending_tasks().push(task)
            },
            !accepted ==> {
                &&& final(self).submitted_tasks() == old(self).submitted_tasks()
                &&& final(self).pending_tasks() == old(self).pending_tasks()
            },
    {
        match self.submit(task) {
            Ok(_) => true,
            Err(_) => false,
        }
    }

    /// Hand the oldest waiting task out for execution.
    pub fn take_next(&mut self) -> (r: Option<u64>)
        requires
            old(self).wf(),
        ensures
            final(self).wf(),
            final(self).is_connected() == old(self).is_connected(),
            final(self).submitted_tasks() == old(self).submitted_tasks(),
            old(self).pending_tasks().len() == 0 ==> {
                &&& r is None
                &&& final(self).pending_tasks() == old(self).pending_tasks()
                &&& final(self).executed_tasks() == old(self).executed_tasks()
            },
            old(self).pending_tasks().len() > 0 ==> {
                &&& r == Some(old(self).pending_tasks()[0])
                &&& final(self).pending_tasks() == old(self).pending_tasks().drop_first()
                &&& final(self).executed_tasks() == old(self).executed_tasks().push(
                    old(self).pending_tasks()[0],
                )
            },
    {
        if self.pending.len() == 0 {
            None
        } else {
            let task = self.pending.remove(0);
            proof {
                self.executed@ = self.executed@.push(task);
                assert(self.pending@ =~= old(self).pending@.drop_first());
                assert(self.executed@ + self.pending@ =~= self.submitted@);
            }
            Some(task)
        }
    }

    /// One consumer step at instant `now`: a task is handed out only when a
    /// task is waiting and the bucket grants a token.  Execution stays
    /// strictly serial because only this call hands tasks out.
    pub fn execute_ready(&mut self, bucket: &mut TokenBucket, now: u64) -> (r: Option<u64>)
        requires
            old(self).wf(),
            old(bucket).wf(),
            old(bucket).last_update() <= now,
        ensures
            final(self).wf(),
            final(bucket).wf(),
            final(bucket).last_update() <= now,
            final(self).is_connected() == old(self).is_connected(),
            final(self).submitted_tasks() == old(self).submitted_tasks(),
            r is Some ==> {
                &&& old(self).pending_tasks().len() > 0
                &&& old(bucket).spec_available(now) >= 1
                &&& r == Some(old(self).pending_tasks()[0])
                &&& final(self).pending_tasks() == old(self).pending_tasks().drop_first()
                &&& final(self).executed_tasks() == old(self).executed_tasks().push(
                    old(self).pending_tasks()[0],
                )
                &&& final(bucket).granted_count() == old(bucket).granted_count() + 1
            },
            r is None ==> {
                &&& final(self).pending_tasks() == old(self).pending_tasks()
                &&& final(self).executed_tasks() == old(self).executed_tasks()
            },
            r is None ==> (old(self).pending_tasks().len() == 0 || old(bucket).spec_available(
                now,
            ) < 1),
    {
        if self.pending.len() == 0 {
            return None;
        }
        if bucket.try_acquire(now) {
            self.take_next()
        } else {
            None
        }
    }
}

/// Tasks execute in submission order: at every reachable state, the tasks
/// handed out so far are exactly the first ones ever submitted, in the same
/// single global order, however many producers submitted them.
pub proof fn lemma_fifo_order(d: RateLimitedDispatcher)
    requires
        d.wf(),
    ensures
        d.executed_tasks().is_prefix_of(d.submitted_tasks()),
{
    assert(d.executed_tasks() =~= d.submitted_tasks().subrange(
        0,
        d.executed_tasks().len() as int,
    ));
}

/// A task submitted once is executed at most once: as long as no task was
/// accepted twice, none is handed out twice.
pub proof fn lemma_executed_at_most_once(d: RateLimitedDispatcher)
    requires
        d.wf(),
        forall|i: int, j: int|
            0 <= i < j < d.submitted_tasks().len() ==> d.submitted_tasks()[i]
                != d.submitted_tasks()[j],
    ensures
        forall|i: int, j: int|
            0 <= i < j < d.executed_tasks().len() ==> d.executed_tasks()[i]
                != d.executed_tasks()[j],
{
    lemma_fifo_order(d);
    assert forall|i: int, j: int|
        0 <= i < j < d.executed_tasks().len() implies d.executed_tasks()[i]
        != d.executed_tasks()[j] by {
        assert(d.executed_tasks()[i] == d.submitted_tasks()[i]);
        assert(d.executed_tasks()[j] == d.submitted_tasks()[j]);
    }
}

} // verus!
