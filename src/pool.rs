use vstd::prelude::*;

use std::collections::VecDeque;

verus! {

/// The idle queue of a connection pool: ready tunnels in the order they were
/// made (front = oldest), never more than `max_idle` of them.
///
/// Tunnels only ever enter through a fresh creation; one handed out is never
/// taken back.
pub struct IdlePool<T> {
    max_idle: usize,
    idle: VecDeque<T>,
}

/// How an acquisition goes on after looking at the idle queue.
pub enum AcquireStep<T> {
    /// An idle tunnel was taken from the front of the queue.
    Ready(T),
    /// The queue was empty: create a fresh tunnel with the factory.
    CreateFresh,
}

/// Queue length after offering one new tunnel to a queue of `len` tunnels.
pub open spec fn len_after_add(len: nat, max_idle: nat) -> nat {
    if len < max_idle {
        len + 1
    } else {
        len
    }
}

impl<T> IdlePool<T> {
    pub closed spec fn spec_idle(&self) -> Seq<T> {
        self.idle@
    }

    pub closed spec fn spec_max_idle(&self) -> nat {
        self.max_idle as nat
    }

    pub open spec fn spec_len(&self) -> nat {
        self.spec_idle().len()
    }

    /// The queue never holds more than `max_idle` tunnels.
    pub open spec fn wf(&self) -> bool {
        self.spec_len() <= self.spec_max_idle()
    }

    /// An empty pool that keeps up to `max_idle` tunnels ready.
    pub fn new(max_idle: usize) -> (r: IdlePool<T>)
        ensures
            r.wf(),
            r.spec_max_idle() == max_idle,
            r.spec_idle() == Seq::<T>::empty(),
    {
        IdlePool { max_idle, idle: VecDeque::with_capacity(max_idle) }
    }

    pub fn max_idle(&self) -> (r: usize)
        ensures
            r == self.spec_max_idle(),
    {
        self.max_idle
    }

    /// Number of idle tunnels (advisory: others may change it right after).
    pub fn size(&self) -> (r: usize)
        ensures
            r == self.spec_len(),
    {
        self.idle.len()
    }

    /// How many tunnels a refill round must create to reach `max_idle`.
    pub fn deficit(&self) -> (r: usize)
        requires
            self.wf(),
        ensures
            r == self.spec_max_idle() - self.spec_len(),
    {
        self.max_idle - self.idle.len()
    }

    /// Offers a freshly made tunnel: it joins the back of the queue unless the
    /// queue is full, in which case it is handed back.
    pub fn add_idle(&mut self, conn: T) -> (r: Result<(), T>)
        requires
            old(self).wf(),
        ensures
            final(self).wf(),
            final(self).spec_max_idle() == old(self).spec_max_idle(),
            final(self).spec_len() == len_after_add(old(self).spec_len(), old(self).spec_max_idle()),
            old(self).spec_len() < old(self).spec_max_idle() ==> r is Ok && final(self).spec_idle()
                == old(self).spec_idle().push(conn),
            old(self).spec_len() >= old(self).spec_max_idle() ==> r == Err::<(), T>(conn)
                && final(self).spec_idle() == old(self).spec_idle(),
    {
        if self.idle.len() < self.max_idle {
            self.idle.push_back(conn);
            Ok(())
        } else {
            Err(conn)
        }
    }

    /// First step of an acquisition: take the oldest idle tunnel, or report
    /// that one must be created.
    pub fn begin_acquire(&mut self) -> (r: AcquireStep<T>)
        requires
            old(self).wf(),
        ensures
            final(self).wf(),
            final(self).spec_max_idle() == old(self).spec_max_idle(),
            old(self).spec_len() > 0 ==> r == AcquireStep::Ready(old(self).spec_idle()[0])
                && final(self).spec_idle() == old(self).spec_idle().drop_first(),
            old(self).spec_len() == 0 ==> r is CreateFresh && final(self).spec_idle()
                == old(self).spec_idle(),
    {
        match self.idle.pop_front() {
            Some(conn) => AcquireStep::Ready(conn),
            None => AcquireStep::CreateFresh,
        }
    }
}

/// What the refill loop does next.
#[derive(Clone, Copy, Debug, PartialEq, Eq, Structural)]
pub enum RefillAction {
    /// Ask the factory for one more tunnel and offer it to the pool.
    CreateOne,
    /// The round is over: wait for the next refill signal.
    WaitSignal,
    /// The signal channel is closed: the loop ends.
    Stop,
}

/// One round of the refill loop: the number of creations still to attempt.
/// A failed creation counts as an attempt and is not retried in the round.
pub struct RefillRound {
    pending: usize,
}

impl RefillRound {
    pub closed spec fn spec_pending(&self) -> nat {
        self.pending as nat
    }

    /// Starts a round sized to what the pool lacks.
    pub fn begin<T>(pool: &IdlePool<T>) -> (r: RefillRound)
        requires
            pool.wf(),
        ensures
            r.spec_pending() == pool.spec_max_idle() - pool.spec_len(),
    {
        RefillRound { pending: pool.deficit() }
    }

    /// The next action of the round.
    pub fn next(&mut self) -> (r: RefillAction)
        ensures
            old(self).spec_pending() > 0 ==> r == RefillAction::CreateOne
                && final(self).spec_pending() == old(self).spec_pending() - 1,
            old(self).spec_pending() == 0 ==> r == RefillAction::WaitSignal
                && final(self).spec_pending() == 0,
    {
        if self.pending > 0 {
            self.pending = self.pending - 1;
            RefillAction::CreateOne
        } else {
            RefillAction::WaitSignal
        }
    }
}

/// After waiting: a received signal starts a new round, a closed channel ends
/// the loop.
pub fn after_wait(signal_received: bool) -> (r: RefillAction)
    ensures
        r == (if signal_received { RefillAction::CreateOne } else { RefillAction::Stop }),
{
    if signal_received {
        RefillAction::CreateOne
    } else {
        RefillAction::Stop
    }
}

/// A refill round in which every creation succeeds and nobody acquires fills
/// the pool exactly: starting from `lens[0]` idle tunnels, the round makes
/// `max_idle - lens[0]` offers, after which the pool holds `max_idle`, and at
/// no point more.
pub proof fn lemma_round_fills_pool(lens: Seq<nat>, max_idle: nat)
    requires
        lens.len() >= 1,
        lens[0] <= max_idle,
        lens.len() == max_idle - lens[0] + 1,
        forall|i: int| 0 <= i < lens.len() - 1 ==> #[trigger] lens[i + 1] == len_after_add(lens[i], max_idle),
    ensures
        lens[lens.len() - 1] == max_idle,
        forall|i: int| 0 <= i < lens.len() ==> #[trigger] lens[i] <= max_idle,
{
    assert forall|i: int| 0 <= i < lens.len() implies #[trigger] lens[i] == lens[0] + i by {
        lemma_round_prefix(lens, max_idle, i);
    }
}

proof fn lemma_round_prefix(lens: Seq<nat>, max_idle: nat, i: int)
    requires
        lens.len() >= 1,
        lens[0] <= max_idle,
        lens.len() == max_idle - lens[0] + 1,
        forall|k: int| 0 <= k < lens.len() - 1 ==> #[trigger] lens[k + 1] == len_after_add(lens[k], max_idle),
        0 <= i < lens.len(),
    ensures
        lens[i] == lens[0] + i,
    decreases i,
{
    if i > 0 {
        lemma_round_prefix(lens, max_idle, i - 1);
        assert(lens[(i - 1) + 1] == len_after_add(lens[i - 1], max_idle));
    }
}

} // verus!
