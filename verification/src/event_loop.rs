use vstd::prelude::*;
use crate::signal::{Signal, SignalState};
use crate::task::{Task, TaskId};
use crate::thread_pool::{
    awaked, dispatched, due_tasks, not_due_tasks, free_before, lemma_dispatch_loses_only_dropped, min_count,
    retain_unfinished, stepped, unfinished, DispatchPlan, MultiThreadedPool, PoolAction,
    PoolEvent, SingleThreadedPool,
};
use crate::vec_ext::{
    answers_by, answers_of, kept, lemma_filter_complement, lemma_retain_filter_by_predicate,
    lemma_retain_filter_partitions, partition_in_order, picked, VecExt,
};

verus! {

/// A request to wake `waker` once the clock reaches `time`.
#[derive(Debug)]
pub struct Timer<W> {
    pub time: u64,
    pub waker: W,
}

/// What tasks spawn and sleeps register while the loop runs, waiting to be
/// taken in by the event loop.
pub struct EventLoopQueue<W> {
    pub tasks: Vec<Task>,
    pub timers: Vec<Timer<W>>,
}

/// The handle through which running tasks reach their event loop.
pub struct EventLoopHandle<W> {
    pub queues: EventLoopQueue<W>,
}

impl<W> EventLoopHandle<W> {
    /// A handle with nothing queued.
    pub fn new() -> (h: Self)
        ensures
            h.queues.tasks@ == Seq::<Task>::empty(),
            h.queues.timers@ == Seq::<Timer<W>>::empty(),
    {
        EventLoopHandle { queues: EventLoopQueue { tasks: Vec::new(), timers: Vec::new() } }
    }

    /// Queues a timer that wakes `waker` at `time`.
    pub fn add_timer(&mut self, time: u64, waker: W)
        ensures
            final(self).queues.timers@ == old(self).queues.timers@.push(Timer { time, waker }),
            final(self).queues.tasks@ == old(self).queues.tasks@,
    {
        self.queues.timers.push(Timer { time, waker });
    }

    /// Queues a new task under `id`, due for its first poll.
    pub fn spawn(&mut self, id: TaskId)
        ensures
            final(self).queues.tasks@.len() == old(self).queues.tasks@.len() + 1,
            final(self).queues.tasks@.drop_last() == old(self).queues.tasks@,
            final(self).queues.tasks@.last().id == id,
            final(self).queues.tasks@.last().signal.state == SignalState::Awaked,
            final(self).queues.timers@ == old(self).queues.timers@,
    {
        let task = Task::new(id);
        self.queues.tasks.push(task);
    }
}

/// The record of `t` once the wakers of task `id` fired.
pub open spec fn woken(t: Task, id: TaskId) -> Task {
    if t.id == id {
        Task { id: t.id, signal: Signal { state: SignalState::Awaked } }
    } else {
        t
    }
}

/// Whether a timer is still to wait at time `now`.
pub open spec fn pending_at<W>(t: Timer<W>, now: u64) -> bool {
    t.time > now
}

/// An update loses no timer: every timer either fires or stays.
pub proof fn lemma_timers_fire_or_stay<W>(timers: Seq<Timer<W>>, now: u64)
    ensures
        timers.filter(|t: Timer<W>| pending_at(t, now)).to_multiset().add(
            timers.filter(|t: Timer<W>| !pending_at(t, now)).to_multiset(),
        ) == timers.to_multiset(),
{
    let p = |t: Timer<W>| pending_at(t, now);
    lemma_filter_complement(timers, p);
    assert((|x: Timer<W>| !p(x)) =~= (|t: Timer<W>| !pending_at(t, now)));
    assert(p =~= (|t: Timer<W>| pending_at(t, now)));
}

/// The timers that stay at time `now`, in order.
pub open spec fn timers_pending<W>(timers: Seq<Timer<W>>, now: u64) -> Seq<Timer<W>> {
    timers.filter(|t: Timer<W>| pending_at(t, now))
}

/// The timers that fire at time `now`, in order.
pub open spec fn timers_due<W>(timers: Seq<Timer<W>>, now: u64) -> Seq<Timer<W>> {
    timers.filter(|t: Timer<W>| !pending_at(t, now))
}

/// A timer fires exactly when the clock has reached its time: every timer
/// that stays is still ahead of `now`, every timer that fires is due at or
/// before `now`, and between them they are all the timers there were.
pub proof fn lemma_timers_fire_when_due<W>(timers: Seq<Timer<W>>, now: u64)
    ensures
        forall|i: int|
            0 <= i < timers_pending(timers, now).len() ==> (#[trigger] timers_pending(timers, now)[i]).time > now,
        forall|i: int|
            0 <= i < timers_due(timers, now).len() ==> (#[trigger] timers_due(timers, now)[i]).time <= now,
        forall|i: int|
            0 <= i < timers.len() && (#[trigger] timers[i]).time <= now ==> timers_due(timers, now).contains(timers[i]),
        forall|i: int|
            0 <= i < timers.len() && (#[trigger] timers[i]).time > now ==> timers_pending(timers, now).contains(timers[i]),
        timers_pending(timers, now).len() + timers_due(timers, now).len() == timers.len(),
{
    broadcast use vstd::seq_lib::group_filter_ensures;
    broadcast use vstd::seq_lib::group_to_multiset_ensures;
    broadcast use vstd::multiset::group_multiset_axioms;

    lemma_timers_fire_or_stay(timers, now);
    let p = |t: Timer<W>| pending_at(t, now);
    let q = |t: Timer<W>| !pending_at(t, now);
    assert(timers_pending(timers, now) == timers.filter(p));
    assert(timers_due(timers, now) == timers.filter(q));
    assert(timers.filter(p).to_multiset().len() == timers.filter(p).len());
    assert(timers.filter(q).to_multiset().len() == timers.filter(q).len());
    assert(timers.to_multiset().len() == timers.len());
    assert forall|i: int| 0 <= i < timers_pending(timers, now).len() implies (#[trigger] timers_pending(timers, now)[i]).time > now by {
        assert(p(timers.filter(p)[i]));
    }
    assert forall|i: int| 0 <= i < timers_due(timers, now).len() implies (#[trigger] timers_due(timers, now)[i]).time <= now by {
        assert(q(timers.filter(q)[i]));
    }
    assert forall|i: int| 0 <= i < timers.len() && (#[trigger] timers[i]).time <= now implies timers_due(timers, now).contains(timers[i]) by {
        assert(q(timers[i]));
    }
    assert forall|i: int| 0 <= i < timers.len() && (#[trigger] timers[i]).time > now implies timers_pending(timers, now).contains(timers[i]) by {
        assert(p(timers[i]));
    }
}

/// An update hands every due task the loop takes in to the workers and keeps
/// every other: each task handed over is due, each task kept is not, every
/// due task is handed over, and nothing is lost or duplicated.
pub proof fn lemma_dispatch_hands_over_every_due_task(intake: Seq<Task>)
    ensures
        due_tasks(intake) == picked(intake, answers_by(intake, |t: Task| awaked(t))),
        not_due_tasks(intake) == kept(intake, answers_by(intake, |t: Task| awaked(t))),
        forall|i: int|
            0 <= i < due_tasks(intake).len() ==> (#[trigger] due_tasks(intake)[i]).signal.state
                == SignalState::Awaked,
        forall|i: int|
            0 <= i < not_due_tasks(intake).len() ==> (#[trigger] not_due_tasks(intake)[i]).signal.state
                != SignalState::Awaked,
        forall|i: int|
            0 <= i < intake.len() && (#[trigger] intake[i]).signal.state == SignalState::Awaked
                ==> due_tasks(intake).contains(intake[i]),
        due_tasks(intake).to_multiset().add(not_due_tasks(intake).to_multiset())
            == intake.to_multiset(),
{
    broadcast use vstd::seq_lib::group_filter_ensures;

    let p = |t: Task| awaked(t);
    let b = answers_by(intake, p);
    lemma_retain_filter_by_predicate(intake, p);
    lemma_retain_filter_partitions(intake, b);
    let f = intake.filter(p);
    assert forall|i: int| 0 <= i < picked(intake, b).len() implies (#[trigger] picked(intake, b)[i]).signal.state
        == SignalState::Awaked by {
        assert(picked(intake, b)[i] == f[f.len() - 1 - i]);
        assert(p(f[f.len() - 1 - i]));
    }
    assert forall|i: int| 0 <= i < intake.len() && (#[trigger] intake[i]).signal.state
        == SignalState::Awaked implies picked(intake, b).contains(intake[i]) by {
        assert(p(intake[i]));
        assert(f.contains(intake[i]));
        let j = choose|j: int| 0 <= j < f.len() && f[j] == intake[i];
        assert(picked(intake, b)[f.len() - 1 - j] == f[j]);
    }
}

/// Waking task `id` makes each record of that task due and leaves its name
/// alone, and leaves every other task exactly as it was.
pub proof fn lemma_wake_touches_only_its_task(t: Task, id: TaskId)
    ensures
        woken(t, id).id == t.id,
        t.id == id ==> woken(t, id).signal.state == SignalState::Awaked,
        t.id != id ==> woken(t, id) == t,
{
}

/// Wakes every task named `id` in `tasks`.
fn wake_tasks(tasks: &mut Vec<Task>, id: TaskId)
    ensures
        final(tasks)@ == old(tasks)@.map_values(|t: Task| woken(t, id)),
{
    let ghost s = tasks@;
    let mut i: usize = 0;
    while i < tasks.len()
        invariant
            i <= tasks@.len(),
            tasks@.len() == s.len(),
            forall|k: int| 0 <= k < i ==> #[trigger] tasks@[k] == woken(s[k], id),
            forall|k: int| i <= k < s.len() ==> #[trigger] tasks@[k] == s[k],
        decreases tasks@.len() - i,
    {
        if tasks[i].id == id {
            tasks[i].signal.notify();
        }
        i = i + 1;
    }
    assert(tasks@ =~= s.map_values(|t: Task| woken(t, id)));
}

/// Wakes every task named `id` among those handed to workers.
fn wake_running(running: &mut Vec<(usize, Task)>, id: TaskId)
    ensures
        final(running)@ == old(running)@.map_values(|p: (usize, Task)| (p.0, woken(p.1, id))),
{
    let ghost s = running@;
    let mut i: usize = 0;
    while i < running.len()
        invariant
            i <= running@.len(),
            running@.len() == s.len(),
            forall|k: int| 0 <= k < i ==> #[trigger] running@[k] == (s[k].0, woken(s[k].1, id)),
            forall|k: int| i <= k < s.len() ==> #[trigger] running@[k] == s[k],
        decreases running@.len() - i,
    {
        if running[i].1.id == id {
            running[i].1.signal.notify();
        }
        i = i + 1;
    }
    assert(running@ =~= s.map_values(|p: (usize, Task)| (p.0, woken(p.1, id))));
}

/// Takes the wakers out of `timers`, in order.
fn wakers_of<W>(timers: Vec<Timer<W>>) -> (wakers: Vec<W>)
    ensures
        wakers@ == timers@.map_values(|t: Timer<W>| t.waker),
{
    let ghost s = timers@;
    let ghost n = s.len() as int;
    let mut timers = timers;
    let mut reversed: Vec<Timer<W>> = Vec::new();
    while timers.len() > 0
        invariant
            n == s.len(),
            timers@ == s.subrange(0, timers@.len() as int),
            reversed@.len() == n - timers@.len(),
            forall|i: int| 0 <= i < reversed@.len() ==> #[trigger] reversed@[i] == s[n - 1 - i],
        decreases timers@.len(),
    {
        let t = timers.pop().unwrap();
        reversed.push(t);
    }
    let mut wakers: Vec<W> = Vec::new();
    while reversed.len() > 0
        invariant
            n == s.len(),
            wakers@.len() + reversed@.len() == n,
            forall|i: int| 0 <= i < reversed@.len() ==> #[trigger] reversed@[i] == s[n - 1 - i],
            forall|i: int| 0 <= i < wakers@.len() ==> #[trigger] wakers@[i] == s[i].waker,
        decreases reversed@.len(),
    {
        let ghost last = reversed@.len() - 1;
        assert(reversed@[last] == s[wakers@.len() as int]);
        let t = reversed.pop().unwrap();
        wakers.push(t.waker);
    }
    assert(wakers@ =~= s.map_values(|t: Timer<W>| t.waker));
    wakers
}

/// The tasks queued through `handles`, handle after handle.
pub open spec fn queued_tasks<W>(handles: Seq<EventLoopHandle<W>>) -> Seq<Task>
    decreases handles.len(),
{
    if handles.len() == 0 {
        Seq::empty()
    } else {
        queued_tasks(handles.drop_last()) + handles.last().queues.tasks@
    }
}

/// The timers queued through `handles`, handle after handle.
pub open spec fn queued_timers<W>(handles: Seq<EventLoopHandle<W>>) -> Seq<Timer<W>>
    decreases handles.len(),
{
    if handles.len() == 0 {
        Seq::empty()
    } else {
        queued_timers(handles.drop_last()) + handles.last().queues.timers@
    }
}

/// Whether nothing is queued through any of `handles`.
pub open spec fn all_drained<W>(handles: Seq<EventLoopHandle<W>>) -> bool {
    forall|i: int|
        0 <= i < handles.len() ==> (#[trigger] handles[i]).queues.tasks@ == Seq::<Task>::empty()
            && handles[i].queues.timers@ == Seq::<Timer<W>>::empty()
}

/// Handles with nothing queued queue no task.
proof fn lemma_drained_queue_nothing<W>(handles: Seq<EventLoopHandle<W>>)
    requires
        all_drained(handles),
    ensures
        queued_tasks(handles) == Seq::<Task>::empty(),
        queued_timers(handles) == Seq::<Timer<W>>::empty(),
    decreases handles.len(),
{
    if handles.len() > 0 {
        let d = handles.drop_last();
        assert(all_drained(d)) by {
            assert forall|i: int| 0 <= i < d.len() implies (#[trigger] d[i]).queues.tasks@
                == Seq::<Task>::empty() && d[i].queues.timers@ == Seq::<Timer<W>>::empty() by {
                assert(d[i] == handles[i]);
            }
        }
        lemma_drained_queue_nothing(d);
        assert(queued_tasks(handles) =~= Seq::<Task>::empty());
        assert(queued_timers(handles) =~= Seq::<Timer<W>>::empty());
    }
}

/// Waking in every queue wakes in the queued tasks as a whole.
proof fn lemma_queued_tasks_woken<W>(
    before: Seq<EventLoopHandle<W>>,
    after: Seq<EventLoopHandle<W>>,
    id: TaskId,
)
    requires
        after.len() == before.len(),
        forall|i: int|
            0 <= i < before.len() ==> (#[trigger] after[i]).queues.tasks@
                == before[i].queues.tasks@.map_values(|t: Task| woken(t, id)),
    ensures
        queued_tasks(after) == queued_tasks(before).map_values(|t: Task| woken(t, id)),
    decreases before.len(),
{
    if before.len() > 0 {
        let n = before.len() - 1;
        assert forall|i: int| 0 <= i < n implies (#[trigger] after.drop_last()[i]).queues.tasks@
            == before.drop_last()[i].queues.tasks@.map_values(|t: Task| woken(t, id)) by {
            assert(after.drop_last()[i] == after[i]);
            assert(before.drop_last()[i] == before[i]);
        }
        lemma_queued_tasks_woken(before.drop_last(), after.drop_last(), id);
        assert(after.last() == after[n]);
        assert(queued_tasks(after) =~= queued_tasks(before).map_values(|t: Task| woken(t, id)));
    }
}

/// Moves what `handle` queued to the ends of `tasks` and `timers`.
fn drain_handle<W>(tasks: &mut Vec<Task>, timers: &mut Vec<Timer<W>>, handle: &mut EventLoopHandle<W>)
    ensures
        final(tasks)@ == old(tasks)@ + old(handle).queues.tasks@,
        final(timers)@ == old(timers)@ + old(handle).queues.timers@,
        final(handle).queues.tasks@ == Seq::<Task>::empty(),
        final(handle).queues.timers@ == Seq::<Timer<W>>::empty(),
{
    let mut queued_tasks: Vec<Task> = Vec::new();
    std::mem::swap(&mut queued_tasks, &mut handle.queues.tasks);
    tasks.append(&mut queued_tasks);
    let mut queued_timers: Vec<Timer<W>> = Vec::new();
    std::mem::swap(&mut queued_timers, &mut handle.queues.timers);
    timers.append(&mut queued_timers);
}

/// Moves what `handles` queued, handle after handle, to the ends of `tasks`
/// and `timers`.
fn drain_handles<W>(
    tasks: &mut Vec<Task>,
    timers: &mut Vec<Timer<W>>,
    handles: &mut Vec<EventLoopHandle<W>>,
)
    ensures
        final(tasks)@ == old(tasks)@ + queued_tasks(old(handles)@),
        final(timers)@ == old(timers)@ + queued_timers(old(handles)@),
        final(handles)@.len() == old(handles)@.len(),
        all_drained(final(handles)@),
{
    let ghost hs = handles@;
    let ghost t0 = tasks@;
    let ghost m0 = timers@;
    let mut i: usize = 0;
    while i < handles.len()
        invariant
            0 <= i <= handles@.len(),
            handles@.len() == hs.len(),
            tasks@ == t0 + queued_tasks(hs.take(i as int)),
            timers@ == m0 + queued_timers(hs.take(i as int)),
            forall|j: int| i <= j < hs.len() ==> #[trigger] handles@[j] == hs[j],
            forall|j: int|
                0 <= j < i ==> (#[trigger] handles@[j]).queues.tasks@ == Seq::<Task>::empty()
                    && handles@[j].queues.timers@ == Seq::<Timer<W>>::empty(),
        decreases hs.len() - i,
    {
        assert(hs.take(i + 1).drop_last() =~= hs.take(i as int));
        assert(hs.take(i + 1).last() == hs[i as int]);
        drain_handle(tasks, timers, &mut handles[i]);
        assert(tasks@ =~= t0 + queued_tasks(hs.take(i + 1)));
        assert(timers@ =~= m0 + queued_timers(hs.take(i + 1)));
        i = i + 1;
    }
    assert(hs.take(hs.len() as int) =~= hs);
}

/// Wakes every task named `id` queued through any of `handles`.
fn wake_handles<W>(handles: &mut Vec<EventLoopHandle<W>>, id: TaskId)
    ensures
        final(handles)@.len() == old(handles)@.len(),
        forall|i: int|
            0 <= i < old(handles)@.len() ==> (#[trigger] final(handles)@[i]).queues.tasks@
                == old(handles)@[i].queues.tasks@.map_values(|t: Task| woken(t, id))
                && final(handles)@[i].queues.timers@ == old(handles)@[i].queues.timers@,
        queued_tasks(final(handles)@) == queued_tasks(old(handles)@).map_values(
            |t: Task| woken(t, id),
        ),
{
    let ghost hs = handles@;
    let mut i: usize = 0;
    while i < handles.len()
        invariant
            0 <= i <= handles@.len(),
            handles@.len() == hs.len(),
            forall|j: int|
                0 <= j < i ==> (#[trigger] handles@[j]).queues.tasks@ == hs[j].queues.tasks@.map_values(
                    |t: Task| woken(t, id),
                ) && handles@[j].queues.timers@ == hs[j].queues.timers@,
            forall|j: int| i <= j < hs.len() ==> #[trigger] handles@[j] == hs[j],
        decreases hs.len() - i,
    {
        wake_tasks(&mut handles[i].queues.tasks, id);
        i = i + 1;
    }
    proof {
        lemma_queued_tasks_woken(hs, handles@, id);
    }
}

/// How the event loop runs its tasks: on its own thread, with one handle, or
/// on a pool of worker threads, with one handle per worker and its own last.
pub enum EventLoopMode<W> {
    SingleThreaded { event_loop_handle: EventLoopHandle<W>, worker: SingleThreadedPool },
    MultiThreaded { event_loop_handles: Vec<EventLoopHandle<W>>, worker_pool: MultiThreadedPool },
}

/// The event loop: its timers, the tasks it has taken in but not yet handed
/// to a worker, and, by mode, its handles and workers.
pub struct EventLoop<W> {
    pub timers: Vec<Timer<W>>,
    pub tasks: Vec<Task>,
    pub mode: EventLoopMode<W>,
}

/// Whether two modes hold the same workers, whatever their handles hold.
pub open spec fn same_workers<W>(a: EventLoopMode<W>, b: EventLoopMode<W>) -> bool {
    match (a, b) {
        (
            EventLoopMode::SingleThreaded { worker: w0, .. },
            EventLoopMode::SingleThreaded { worker: w1, .. },
        ) => w1 == w0,
        (
            EventLoopMode::MultiThreaded { worker_pool: p0, .. },
            EventLoopMode::MultiThreaded { worker_pool: p1, .. },
        ) => p1 == p0,
        _ => false,
    }
}

impl<W> EventLoop<W> {
    /// The handles of the loop, in the order in which it drains them: the
    /// workers' first, its own last.
    pub open spec fn handles(&self) -> Seq<EventLoopHandle<W>> {
        match self.mode {
            EventLoopMode::SingleThreaded { event_loop_handle, .. } => seq![event_loop_handle],
            EventLoopMode::MultiThreaded { event_loop_handles, .. } => event_loop_handles@,
        }
    }

    /// The tasks that the workers hold.
    pub open spec fn worker_tasks(&self) -> Seq<Task> {
        match self.mode {
            EventLoopMode::SingleThreaded { worker, .. } => worker.tasks@,
            EventLoopMode::MultiThreaded { worker_pool, .. } => worker_pool.tasks@
                + worker_pool.returned@ + worker_pool.running@.map_values(
                |p: (usize, Task)| p.1,
            ),
        }
    }

    /// The tasks that the event loop takes in at an update: those it had and
    /// those queued through its handles, handle after handle.
    pub open spec fn intake(&self) -> Seq<Task> {
        self.tasks@ + queued_tasks(self.handles())
    }

    /// Every task record the loop holds, wherever it is.
    pub open spec fn all_tasks(&self) -> Seq<Task> {
        self.intake() + self.worker_tasks()
    }

    /// A loop with nothing to run: for a thread count of one, it polls on its
    /// own thread and has one handle; otherwise it has that many workers, one
    /// handle for each and one for itself, last.
    pub fn new(thread_count: usize) -> (l: Self)
        ensures
            l.timers@ == Seq::<Timer<W>>::empty(),
            l.tasks@ == Seq::<Task>::empty(),
            all_drained(l.handles()),
            thread_count == 1 ==> (l.mode matches EventLoopMode::SingleThreaded { worker, .. }
                && worker.tasks@ == Seq::<Task>::empty() && worker.current is None),
            thread_count != 1 ==> (l.mode matches EventLoopMode::MultiThreaded { worker_pool, .. }
                && worker_pool.tasks@ == Seq::<Task>::empty()
                && worker_pool.returned@ == Seq::<Task>::empty()
                && worker_pool.running@ == Seq::<(usize, Task)>::empty()
                && worker_pool.available@ == Seq::new(thread_count as nat, |w: int| true)),
            thread_count != 1 ==> l.handles().len() == thread_count + 1,
    {
        let mode = if thread_count == 1 {
            EventLoopMode::SingleThreaded {
                event_loop_handle: EventLoopHandle::new(),
                worker: SingleThreadedPool::new(),
            }
        } else {
            let (worker_pool, mut handles) = MultiThreadedPool::new(thread_count);
            handles.push(EventLoopHandle::new());
            EventLoopMode::MultiThreaded { event_loop_handles: handles, worker_pool }
        };
        EventLoop { timers: Vec::new(), tasks: Vec::new(), mode }
    }

    /// How many handles the loop has.
    pub fn handle_count(&self) -> (count: usize)
        ensures
            count == self.handles().len(),
    {
        match &self.mode {
            EventLoopMode::SingleThreaded { .. } => 1,
            EventLoopMode::MultiThreaded { event_loop_handles, .. } => event_loop_handles.len(),
        }
    }

    /// The handle numbered `index`, in draining order.
    pub fn handle_mut(&mut self, index: usize) -> (handle: &mut EventLoopHandle<W>)
        requires
            index < old(self).handles().len(),
        ensures
            *handle == old(self).handles()[index as int],
            final(self).handles() == old(self).handles().update(index as int, *final(handle)),
            final(self).tasks == old(self).tasks,
            final(self).timers == old(self).timers,
            same_workers(old(self).mode, final(self).mode),
    {
        match &mut self.mode {
            EventLoopMode::SingleThreaded { event_loop_handle, .. } => event_loop_handle,
            EventLoopMode::MultiThreaded { event_loop_handles, .. } => &mut event_loop_handles[index],
        }
    }

    /// The wakers of task `id` fired: every record of that task, wherever it
    /// is, becomes due for a poll; nothing else changes.
    pub fn wake(&mut self, id: TaskId)
        ensures
            final(self).tasks@ == old(self).tasks@.map_values(|t: Task| woken(t, id)),
            final(self).handles().len() == old(self).handles().len(),
            forall|i: int|
                0 <= i < old(self).handles().len() ==> (#[trigger] final(self).handles()[i]).queues.tasks@
                    == old(self).handles()[i].queues.tasks@.map_values(|t: Task| woken(t, id))
                    && final(self).handles()[i].queues.timers@ == old(self).handles()[i].queues.timers@,
            final(self).timers == old(self).timers,
            final(self).all_tasks() == old(self).all_tasks().map_values(|t: Task| woken(t, id)),
            match (old(self).mode, final(self).mode) {
                (
                    EventLoopMode::SingleThreaded { worker: w0, .. },
                    EventLoopMode::SingleThreaded { worker: w1, .. },
                ) => w1.tasks@ == w0.tasks@.map_values(|t: Task| woken(t, id)) && w1.current
                    == w0.current,
                (
                    EventLoopMode::MultiThreaded { worker_pool: p0, .. },
                    EventLoopMode::MultiThreaded { worker_pool: p1, .. },
                ) => {
                    &&& p1.tasks@ == p0.tasks@.map_values(|t: Task| woken(t, id))
                    &&& p1.returned@ == p0.returned@.map_values(|t: Task| woken(t, id))
                    &&& p1.running@ == p0.running@.map_values(
                        |p: (usize, Task)| (p.0, woken(p.1, id)),
                    )
                    &&& p1.available == p0.available
                },
                _ => false,
            },
    {
        wake_tasks(&mut self.tasks, id);
        match &mut self.mode {
            EventLoopMode::SingleThreaded { event_loop_handle, worker } => {
                wake_tasks(&mut event_loop_handle.queues.tasks, id);
                wake_tasks(&mut worker.tasks, id);
                proof {
                    let h0 = old(self).handles();
                    lemma_queued_tasks_woken(h0, self.handles(), id);
                }
            },
            EventLoopMode::MultiThreaded { event_loop_handles, worker_pool } => {
                wake_handles(event_loop_handles, id);
                wake_tasks(&mut worker_pool.tasks, id);
                wake_tasks(&mut worker_pool.returned, id);
                wake_running(&mut worker_pool.running, id);
            },
        }
        proof {
            let f = |t: Task| woken(t, id);
            assert(final(self).all_tasks() =~= old(self).all_tasks().map_values(f));
        }
    }

    /// The first step of an update at time `now`: the timers that are due
    /// leave the loop and their wakers are handed back, in order, to be woken;
    /// the others stay, in order.
    pub fn fire_timers(&mut self, now: u64) -> (fired: Vec<W>)
        ensures
            final(self).timers@ == old(self).timers@.filter(|t: Timer<W>| pending_at(t, now)),
            fired@ == old(self).timers@.filter(|t: Timer<W>| !pending_at(t, now)).map_values(
                |t: Timer<W>| t.waker,
            ),
            final(self).tasks == old(self).tasks,
            final(self).mode == old(self).mode,
    {
        let mut timers: Vec<Timer<W>> = Vec::new();
        std::mem::swap(&mut timers, &mut self.timers);
        let still_pending = |t: &Timer<W>| -> (r: bool)
            ensures
                r == pending_at(*t, now),
            { t.time > now };
        let ghost p = |t: Timer<W>| pending_at(t, now);
        let (kept_timers, due) = partition_in_order(timers, still_pending, Ghost(p));
        self.timers = kept_timers;
        proof {
            assert((|x: Timer<W>| !p(x)) =~= (|t: Timer<W>| !pending_at(t, now)));
            assert(p =~= (|t: Timer<W>| pending_at(t, now)));
        }
        wakers_of(due)
    }

    /// The second step of an update: the loop takes in what was queued
    /// through its handles, handle after handle, takes the due tasks out of
    /// those it holds and hands them to its workers. On its own thread, the
    /// worker just takes them over; with a pool of workers, the pool runs one
    /// of its updates.
    pub fn dispatch(&mut self) -> (plan: DispatchPlan)
        ensures
            final(self).tasks@ == kept(old(self).intake(), answers_by(old(self).intake(), |t: Task| awaked(t))),
            final(self).handles().len() == old(self).handles().len(),
            all_drained(final(self).handles()),
            final(self).timers@ == old(self).timers@ + queued_timers(old(self).handles()),
            match (old(self).mode, final(self).mode) {
                (
                    EventLoopMode::SingleThreaded { worker: w0, .. },
                    EventLoopMode::SingleThreaded { worker: w1, .. },
                ) => {
                    &&& w1.tasks@ == w0.tasks@ + picked(old(self).intake(), answers_by(old(self).intake(), |t: Task| awaked(t)))
                    &&& w1.current == w0.current
                    &&& plan.assignments@.len() == 0
                    &&& plan.dropped@.len() == 0
                },
                (
                    EventLoopMode::MultiThreaded { worker_pool: p0, .. },
                    EventLoopMode::MultiThreaded { worker_pool: p1, .. },
                ) => dispatched(
                    p0.tasks@ + picked(old(self).intake(), answers_by(old(self).intake(), |t: Task| awaked(t)))
                        + p0.returned@,
                    p0.running@,
                    p0.available@,
                    p1,
                    plan,
                ),
                _ => false,
            },
            old(self).mode is SingleThreaded ==> final(self).all_tasks().to_multiset()
                == old(self).all_tasks().to_multiset(),
            old(self).mode matches EventLoopMode::MultiThreaded { worker_pool: p0, .. } ==> ({
                let intake = old(self).intake();
                let q = p0.tasks@ + picked(intake, answers_by(intake, |t: Task| awaked(t)))
                    + p0.returned@;
                let due = due_tasks(q);
                let m = min_count(
                    free_before(p0.available@, p0.available@.len() as int) as int,
                    due.len() as int,
                );
                final(self).all_tasks().to_multiset().add(
                    due.subrange(0, due.len() - m).to_multiset(),
                ) == old(self).all_tasks().to_multiset()
            }),
    {
        match &mut self.mode {
            EventLoopMode::SingleThreaded { event_loop_handle, .. } => {
                drain_handle(&mut self.tasks, &mut self.timers, event_loop_handle);
                proof {
                    let h0 = old(self).handles();
                    assert(h0.drop_last() =~= Seq::<EventLoopHandle<W>>::empty());
                    assert(h0.last() == h0[0]);
                    assert(queued_tasks(h0.drop_last()) =~= Seq::<Task>::empty());
                    assert(queued_timers(h0.drop_last()) =~= Seq::<Timer<W>>::empty());
                    assert(queued_tasks(h0) =~= h0[0].queues.tasks@);
                    assert(queued_timers(h0) =~= h0[0].queues.timers@);
                }
            },
            EventLoopMode::MultiThreaded { event_loop_handles, .. } => {
                drain_handles(&mut self.tasks, &mut self.timers, event_loop_handles);
            },
        }
        proof {
            lemma_drained_queue_nothing(self.handles());
        }
        let ghost intake = self.tasks@;
        assert(intake == old(self).intake());
        let is_due = |t: &Task| -> (r: bool)
            ensures
                r == awaked(*t),
            { t.signal.state == SignalState::Awaked };
        let awaked_tasks = self.tasks.retain_filter(is_due);
        let ghost by = answers_by(intake, |t: Task| awaked(t));
        proof {
            let b = choose|b: Seq<bool>|
                {
                    &&& answers_of(is_due, intake, b)
                    &&& awaked_tasks@ == picked(intake, b)
                    &&& self.tasks.elements() == kept(intake, b)
                };
            assert(b =~= by);
            lemma_retain_filter_partitions(intake, by);
        }
        let ghost pk = picked(intake, by);
        let ghost kp = kept(intake, by);
        match &mut self.mode {
            EventLoopMode::SingleThreaded { worker, .. } => {
                let ghost w0 = worker.tasks@;
                worker.add_tasks(awaked_tasks);
                proof {
                    vstd::seq_lib::lemma_multiset_commutative(intake, w0);
                    vstd::seq_lib::lemma_multiset_commutative(w0, pk);
                    vstd::seq_lib::lemma_multiset_commutative(kp, w0 + pk);
                    assert(final(self).all_tasks() =~= kp + (w0 + pk));
                    assert(old(self).all_tasks() =~= intake + w0);
                }
                DispatchPlan { assignments: Vec::new(), dropped: Vec::new() }
            },
            EventLoopMode::MultiThreaded { worker_pool, .. } => {
                let ghost p0 = *worker_pool;
                worker_pool.add_tasks(awaked_tasks);
                let plan = worker_pool.update();
                proof {
                    let q = p0.tasks@ + pk + p0.returned@;
                    let r0 = p0.running@.map_values(|p: (usize, Task)| p.1);
                    lemma_dispatch_loses_only_dropped(q, p0.running@, p0.available@, *worker_pool, plan);
                    let p1 = *worker_pool;
                    let x = p1.tasks@ + p1.returned@ + p1.running@.map_values(|p: (usize, Task)| p.1);
                    let due = due_tasks(q);
                    let m = min_count(
                        free_before(p0.available@, p0.available@.len() as int) as int,
                        due.len() as int,
                    );
                    let d0 = due.subrange(0, due.len() - m);
                    broadcast use vstd::seq_lib::group_to_multiset_ensures;
                    broadcast use vstd::multiset::group_multiset_axioms;

                    vstd::seq_lib::lemma_multiset_commutative(kp, x);
                    vstd::seq_lib::lemma_multiset_commutative(q, r0);
                    vstd::seq_lib::lemma_multiset_commutative(p0.tasks@ + pk, p0.returned@);
                    vstd::seq_lib::lemma_multiset_commutative(p0.tasks@, pk);
                    vstd::seq_lib::lemma_multiset_commutative(intake, p0.tasks@ + p0.returned@ + r0);
                    vstd::seq_lib::lemma_multiset_commutative(p0.tasks@ + p0.returned@, r0);
                    vstd::seq_lib::lemma_multiset_commutative(p0.tasks@, p0.returned@);
                    assert(self.all_tasks() =~= kp + x);
                    assert(old(self).all_tasks() =~= intake + (p0.tasks@ + p0.returned@ + r0));
                    assert forall|e: Task|
                        #[trigger] self.all_tasks().to_multiset().add(d0.to_multiset()).count(e)
                            == old(self).all_tasks().to_multiset().count(e) by {
                        assert(x.to_multiset().add(d0.to_multiset()).count(e)
                            == q.to_multiset().add(r0.to_multiset()).count(e));
                        assert(pk.to_multiset().add(kp.to_multiset()).count(e)
                            == intake.to_multiset().count(e));
                    }
                    assert(self.all_tasks().to_multiset().add(d0.to_multiset())
                        =~= old(self).all_tasks().to_multiset());
                }
                plan
            },
        }
    }

    /// A step of the polling round of the single-threaded worker; a loop with
    /// a pool of workers has no such round and is left as it is.
    pub fn poll_step(&mut self, event: PoolEvent) -> (action: PoolAction)
        requires
            old(self).mode matches EventLoopMode::SingleThreaded { worker, .. } ==> (event is Polled
                ==> worker.current is Some && worker.current->0 < worker.tasks@.len()),
        ensures
            final(self).tasks == old(self).tasks,
            final(self).timers == old(self).timers,
            final(self).handles() == old(self).handles(),
            match (old(self).mode, final(self).mode) {
                (
                    EventLoopMode::SingleThreaded { worker: w0, .. },
                    EventLoopMode::SingleThreaded { worker: w1, .. },
                ) => stepped(w0, event, w1, action),
                (
                    EventLoopMode::MultiThreaded { worker_pool: p0, .. },
                    EventLoopMode::MultiThreaded { worker_pool: p1, .. },
                ) => p1 == p0 && action == PoolAction::Done,
                _ => false,
            },
    {
        match &mut self.mode {
            EventLoopMode::SingleThreaded { worker, .. } => worker.update(event),
            EventLoopMode::MultiThreaded { .. } => PoolAction::Done,
        }
    }

    /// The last step of an update: the loop drops the tasks it holds that
    /// have finished.
    pub fn finish_update(&mut self)
        ensures
            final(self).tasks@ == old(self).tasks@.filter(|t: Task| unfinished(t)),
            final(self).timers == old(self).timers,
            final(self).mode == old(self).mode,
    {
        let mut tasks: Vec<Task> = Vec::new();
        std::mem::swap(&mut tasks, &mut self.tasks);
        self.tasks = retain_unfinished(tasks);
    }
}

} // verus!
