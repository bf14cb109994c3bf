use vstd::prelude::*;
use vstd::multiset::Multiset;
use std::collections::VecDeque;

verus! {

/// The waiters of an async mutex, in the order in which they asked for it,
/// each with the ticket it was given. The waiter at the front holds the lock.
pub struct WakerQueue<W> {
    pub buf: VecDeque<(W, u64)>,
    pub next_id: u64,
}

impl<W> WakerQueue<W> {
    /// Tickets are handed out in increasing order and the queue keeps that
    /// order: every queued ticket is below the next one to hand out.
    pub open spec fn wf(&self) -> bool {
        &&& forall|i: int, j: int|
            0 <= i < j < self.buf@.len() ==> #[trigger] self.buf@[i].1 < #[trigger] self.buf@[j].1
        &&& forall|i: int| 0 <= i < self.buf@.len() ==> #[trigger] self.buf@[i].1 < self.next_id
    }

    /// An empty queue.
    pub fn new() -> (q: Self)
        ensures
            q.buf@ == Seq::<(W, u64)>::empty(),
            q.next_id == 0,
            q.wf(),
    {
        WakerQueue { buf: VecDeque::new(), next_id: 0 }
    }
}

/// The future of one `lock` call: it holds the ticket once it has one.
pub struct LockFuture {
    pub id: Option<u64>,
}

impl LockFuture {
    /// A lock request that has not yet queued.
    pub fn new() -> (f: LockFuture)
        ensures
            f.id is None,
    {
        LockFuture { id: None }
    }

    /// One poll by the task that `waker` wakes: the first poll queues the
    /// waker under a new ticket; the lock is taken once this ticket is at the
    /// front of the queue.
    pub fn poll<W>(&mut self, queue: &mut WakerQueue<W>, waker: W) -> (ready: bool)
        requires
            old(queue).wf(),
            old(self).id is None ==> old(queue).next_id < u64::MAX,
            old(self).id is Some ==> old(queue).buf@.len() > 0,
        ensures
            final(queue).wf(),
            old(self).id is None ==> {
                &&& final(queue).buf@ == old(queue).buf@.push((waker, old(queue).next_id))
                &&& final(queue).next_id == old(queue).next_id + 1
                &&& final(self).id == Some(old(queue).next_id)
            },
            old(self).id is Some ==> {
                &&& *final(queue) == *old(queue)
                &&& *final(self) == *old(self)
            },
            final(queue).buf@.len() > 0,
            ready == (final(queue).buf@[0].1 == final(self).id.unwrap()),
    {
        if self.id.is_none() {
            let next_id = queue.next_id;
            queue.buf.push_back((waker, next_id));
            queue.next_id = queue.next_id + 1;
            self.id = Some(next_id);
        }
        let id = match self.id {
            Some(id) => id,
            None => {
                return false;
            },
        };
        id == queue.buf[0].1
    }
}

/// What one poll of the lock request `f0` by the task that `waker` wakes does
/// to the queue `q0`, giving `q1`, `f1` and `guard`: the first poll queues
/// the waker under the next ticket; the guard comes once the request's ticket
/// is at the front.
pub open spec fn lock_polled<W>(
    q0: WakerQueue<W>,
    f0: LockFuture,
    waker: W,
    q1: WakerQueue<W>,
    f1: LockFuture,
    guard: Option<MutexGuard>,
) -> bool {
    &&& f0.id is None ==> {
        &&& q1.buf@ == q0.buf@.push((waker, q0.next_id))
        &&& q1.next_id == q0.next_id + 1
        &&& f1.id == Some(q0.next_id)
    }
    &&& f0.id is Some ==> q1 == q0 && f1 == f0
    &&& q1.buf@.len() > 0
    &&& match guard {
        Some(g) => f1.id == Some(g.id) && q1.buf@[0].1 == g.id,
        None => q1.buf@[0].1 != f1.id->0,
    }
}

/// What releasing the lock does to the queue `q0`, giving `q1` and the waker
/// `to_wake` to wake: the holder's entry leaves, and the next waiter, if any,
/// leaves too and is handed back.
pub open spec fn unlocked<W>(q0: WakerQueue<W>, q1: WakerQueue<W>, to_wake: Option<W>) -> bool {
    &&& q1.next_id == q0.next_id
    &&& q0.buf@.len() <= 1 ==> q1.buf@ == Seq::<(W, u64)>::empty() && to_wake is None
    &&& q0.buf@.len() > 1 ==> q1.buf@ == q0.buf@.subrange(2, q0.buf@.len() as int) && to_wake
        == Some(q0.buf@[1].0)
}

/// Proof that the lock was taken, with the ticket that took it.
pub struct MutexGuard {
    pub id: u64,
}

/// An async mutex: the protected value and the queue of its waiters.
pub struct Mutex<T, W> {
    pub inner: T,
    pub queue: WakerQueue<W>,
}

impl<T, W> Mutex<T, W> {
    /// A mutex around `inner` with nobody waiting.
    pub fn new(inner: T) -> (m: Self)
        ensures
            m.inner == inner,
            m.queue.buf@ == Seq::<(W, u64)>::empty(),
            m.queue.next_id == 0,
            m.queue.wf(),
    {
        Mutex { inner, queue: WakerQueue::new() }
    }

    /// One poll of the lock request `fut` by the task that `waker` wakes: the
    /// guard comes once the request's ticket is at the front of the queue.
    pub fn poll_lock(&mut self, fut: &mut LockFuture, waker: W) -> (guard: Option<MutexGuard>)
        requires
            old(self).queue.wf(),
            old(fut).id is None ==> old(self).queue.next_id < u64::MAX,
            old(fut).id is Some ==> old(self).queue.buf@.len() > 0,
        ensures
            final(self).queue.wf(),
            final(self).inner == old(self).inner,
            lock_polled(old(self).queue, *old(fut), waker, final(self).queue, *final(fut), guard),
    {
        let ready = fut.poll(&mut self.queue, waker);
        if ready {
            let id = match fut.id {
                Some(id) => id,
                None => 0,
            };
            Some(MutexGuard { id })
        } else {
            None
        }
    }

    /// Drops the guard that holds the lock: the holder's entry leaves the
    /// queue, and the next waiter, if any, is taken off the queue too and
    /// handed back to be woken.
    pub fn unlock(&mut self, guard: MutexGuard) -> (to_wake: Option<W>)
        requires
            old(self).queue.wf(),
            granted(old(self).queue, guard.id),
        ensures
            final(self).queue.wf(),
            final(self).inner == old(self).inner,
            unlocked(old(self).queue, final(self).queue, to_wake),
    {
        let ghost b0 = self.queue.buf@;
        let _ = self.queue.buf.remove(0);
        if self.queue.buf.len() > 0 {
            let next = self.queue.buf.pop_front();
            assert(self.queue.buf@ =~= b0.subrange(2, b0.len() as int));
            match next {
                Some(next) => Some(next.0),
                None => None,
            }
        } else {
            assert(self.queue.buf@ =~= Seq::<(W, u64)>::empty());
            None
        }
    }

    /// The protected value, for the holder of the lock.
    pub fn get_mut(&mut self) -> (value: &mut T)
        ensures
            *value == old(self).inner,
            final(self).inner == *final(value),
            final(self).queue == old(self).queue,
    {
        &mut self.inner
    }
}

/// The lock goes to waiters in the order in which they queued: in a
/// well-formed queue the waiter at the front holds the smallest ticket.
pub proof fn lemma_lock_goes_to_earliest<W>(q: WakerQueue<W>, k: int)
    requires
        q.wf(),
        0 <= k < q.buf@.len(),
    ensures
        q.buf@[0].1 <= q.buf@[k].1,
{
    if k > 0 {
        assert(q.buf@[0].1 < q.buf@[k].1);
    }
}

/// Whether the lock is held under `ticket`: the ticket is at the front of the
/// queue.
pub open spec fn granted<W>(q: WakerQueue<W>, ticket: u64) -> bool {
    q.buf@.len() > 0 && q.buf@[0].1 == ticket
}

/// Whether the guards alive, given by their tickets in `live`, agree with
/// the queue `q`: each is alive once, and each holds the ticket at the front.
pub open spec fn guards_agree<W>(q: WakerQueue<W>, live: Multiset<u64>) -> bool {
    forall|t: u64| #[trigger] live.count(t) > 0 ==> live.count(t) == 1 && granted(q, t)
}

/// The guards alive once `guard` is handed out.
pub open spec fn with_guard(live: Multiset<u64>, guard: Option<MutexGuard>) -> Multiset<u64> {
    match guard {
        Some(g) => live.insert(g.id),
        None => live,
    }
}

/// At most one guard is alive while the guards agree with the queue.
pub proof fn lemma_at_most_one_guard<W>(q: WakerQueue<W>, live: Multiset<u64>)
    requires
        guards_agree(q, live),
    ensures
        live.len() <= 1,
{
    broadcast use vstd::multiset::group_multiset_axioms;

    if live.len() > 0 {
        let t = live.choose();
        assert(live =~= Multiset::singleton(t)) by {
            assert forall|u: u64| #[trigger] live.count(u) == Multiset::singleton(t).count(u) by {
                if live.count(u) > 0 {
                    assert(granted(q, u));
                }
            }
        }
    }
}

/// A new mutex, with no guard alive, agrees with its queue.
pub proof fn lemma_guards_agree_at_start<W>(q: WakerQueue<W>)
    requires
        q.buf@.len() == 0,
    ensures
        guards_agree(q, Multiset::empty()),
{
    broadcast use vstd::multiset::group_multiset_axioms;
}

/// Every poll of a lock request keeps the guards in agreement with the queue,
/// counting the guard it hands out, provided that the request holds no guard
/// already (a lock request is not polled again once it has given its guard).
pub proof fn lemma_poll_lock_keeps_one_guard<W>(
    q0: WakerQueue<W>,
    f0: LockFuture,
    waker: W,
    q1: WakerQueue<W>,
    f1: LockFuture,
    guard: Option<MutexGuard>,
    live: Multiset<u64>,
)
    requires
        q0.wf(),
        guards_agree(q0, live),
        f0.id is Some ==> live.count(f0.id->0) == 0,
        lock_polled(q0, f0, waker, q1, f1, guard),
    ensures
        guards_agree(q1, with_guard(live, guard)),
        with_guard(live, guard).len() <= 1,
{
    broadcast use vstd::multiset::group_multiset_axioms;

    let l1 = with_guard(live, guard);
    if f0.id is None {
        if q0.buf@.len() > 0 {
            assert(q1.buf@[0] == q0.buf@[0]);
            if guard is Some {
                assert(q0.buf@[0].1 < q0.next_id);
            }
        } else {
            assert forall|t: u64| #[trigger] live.count(t) == 0 by {
                if live.count(t) > 0 {
                    assert(granted(q0, t));
                }
            }
        }
    } else {
        if let Some(g) = guard {
            assert forall|t: u64| #[trigger] live.count(t) == 0 by {
                if live.count(t) > 0 {
                    assert(granted(q0, t));
                }
            }
        }
    }
    assert forall|t: u64| #[trigger] l1.count(t) > 0 implies l1.count(t) == 1 && granted(q1, t) by {
        if live.count(t) > 0 {
            assert(granted(q0, t));
        }
    }
    lemma_at_most_one_guard(q1, l1);
}

/// Releasing the lock with the guard that holds it keeps the guards in
/// agreement with the queue: no guard is alive afterwards.
pub proof fn lemma_unlock_keeps_one_guard<W>(
    q0: WakerQueue<W>,
    q1: WakerQueue<W>,
    to_wake: Option<W>,
    guard: MutexGuard,
    live: Multiset<u64>,
)
    requires
        q0.wf(),
        guards_agree(q0, live),
        live.count(guard.id) > 0,
        unlocked(q0, q1, to_wake),
    ensures
        live.remove(guard.id) =~= Multiset::empty(),
        guards_agree(q1, live.remove(guard.id)),
{
    broadcast use vstd::multiset::group_multiset_axioms;

    assert forall|t: u64| #[trigger] live.remove(guard.id).count(t) == 0 by {
        if live.count(t) > 0 {
            assert(granted(q0, t));
        }
    }
}

/// Every request gets a ticket of its own: the ticket a first poll hands out
/// is held by no waiter in a well-formed queue, and the queue stays
/// well-formed with it.
pub proof fn lemma_fresh_ticket_unique<W>(q: WakerQueue<W>, i: int)
    requires
        q.wf(),
        0 <= i < q.buf@.len(),
    ensures
        q.buf@[i].1 != q.next_id,
{
}

/// A released lock is not granted again to the guard that held it: after an
/// unlock, the holder's ticket is in the queue no more.
pub proof fn lemma_released_ticket_gone<W>(q: WakerQueue<W>, rest: Seq<(W, u64)>, k: int)
    requires
        q.wf(),
        q.buf@.len() > 0,
        1 <= k <= q.buf@.len(),
        rest == q.buf@.subrange(k, q.buf@.len() as int),
    ensures
        forall|i: int| 0 <= i < rest.len() ==> #[trigger] rest[i].1 != q.buf@[0].1,
{
    assert forall|i: int| 0 <= i < rest.len() implies #[trigger] rest[i].1 != q.buf@[0].1 by {
        assert(rest[i] == q.buf@[k + i]);
        assert(q.buf@[0].1 < q.buf@[k + i].1);
    }
}

/// Two waiters never hold the lock at once: tickets in a well-formed queue
/// are distinct, so only one of them can be the ticket at the front.
pub proof fn lemma_lock_exclusive<W>(q: WakerQueue<W>, a: int, b: int)
    requires
        q.wf(),
        0 <= a < q.buf@.len(),
        0 <= b < q.buf@.len(),
        a != b,
    ensures
        q.buf@[a].1 != q.buf@[b].1,
{
    if a < b {
        assert(q.buf@[a].1 < q.buf@[b].1);
    } else {
        assert(q.buf@[b].1 < q.buf@[a].1);
    }
}

/// Releasing the lock takes the holder off the queue for good and hands
/// back the waiter that queued right behind it, if any (taking it off the
/// queue too); the waiters left keep their order and their tickets, all
/// later than the released one, and the queue stays well-formed.
pub proof fn lemma_unlock_hands_to_next_in_line<W>(q0: WakerQueue<W>, q1: WakerQueue<W>, to_wake: Option<W>)
    requires
        q0.wf(),
        q0.buf@.len() > 0,
        unlocked(q0, q1, to_wake),
    ensures
        q1.wf(),
        q1.next_id == q0.next_id,
        to_wake is Some <==> q0.buf@.len() >= 2,
        q0.buf@.len() >= 2 ==> to_wake == Some(q0.buf@[1].0),
        q1.buf@.len() + 2 >= q0.buf@.len(),
        q1.buf@.len() < q0.buf@.len(),
        forall|i: int| 0 <= i < q1.buf@.len() ==> #[trigger] q1.buf@[i] == q0.buf@[i + 2],
        forall|i: int| 0 <= i < q1.buf@.len() ==> #[trigger] q1.buf@[i].1 > q0.buf@[0].1,
{
    if q0.buf@.len() > 1 {
        assert forall|i: int| 0 <= i < q1.buf@.len() implies #[trigger] q1.buf@[i].1 > q0.buf@[0].1 by {
            assert(q1.buf@[i] == q0.buf@[i + 2]);
        }
    }
}

/// Lock requests are served in the order they were made: the first poll of a
/// request gives it a ticket later than every ticket already queued, keeps
/// the waiters ahead of it where they were, and a guard is handed out only
/// for the earliest ticket still queued.
pub proof fn lemma_lock_poll_is_fair<W>(
    q0: WakerQueue<W>,
    f0: LockFuture,
    waker: W,
    q1: WakerQueue<W>,
    f1: LockFuture,
    guard: Option<MutexGuard>,
)
    requires
        q0.wf(),
        f0.id is None ==> q0.next_id < u64::MAX,
        lock_polled(q0, f0, waker, q1, f1, guard),
    ensures
        q1.wf(),
        f1.id is Some,
        f0.id is None ==> forall|i: int| 0 <= i < q0.buf@.len() ==> #[trigger] q0.buf@[i].1 < f1.id->0,
        f0.id is None ==> forall|i: int| 0 <= i < q0.buf@.len() ==> #[trigger] q1.buf@[i] == q0.buf@[i],
        f0.id is Some ==> f1 == f0 && q1 == q0,
        guard matches Some(g) ==> {
            &&& f1.id == Some(g.id)
            &&& granted(q1, g.id)
            &&& forall|i: int| 0 <= i < q1.buf@.len() ==> g.id <= #[trigger] q1.buf@[i].1
        },
        guard is None ==> !granted(q1, f1.id->0),
{
    if f0.id is None {
        assert forall|i: int, j: int| 0 <= i < j < q1.buf@.len() implies #[trigger] q1.buf@[i].1
            < #[trigger] q1.buf@[j].1 by {
            if j == q1.buf@.len() - 1 {
                assert(q1.buf@[i] == q0.buf@[i]);
            } else {
                assert(q1.buf@[i] == q0.buf@[i]);
                assert(q1.buf@[j] == q0.buf@[j]);
            }
        }
        assert forall|i: int| 0 <= i < q1.buf@.len() implies #[trigger] q1.buf@[i].1 < q1.next_id by {
            if i < q0.buf@.len() {
                assert(q1.buf@[i] == q0.buf@[i]);
            }
        }
    }
    if let Some(g) = guard {
        assert forall|i: int| 0 <= i < q1.buf@.len() implies g.id <= #[trigger] q1.buf@[i].1 by {
            if i > 0 {
                assert(q1.buf@[0].1 < q1.buf@[i].1);
            }
        }
    }
}

} // verus!
