use vstd::prelude::*;
use vstd::multiset::Multiset;
use crate::signal::SignalState;
use crate::event_loop::{EventLoopHandle, Timer};
use crate::task::{PollOutcome, Task, TaskId};
use crate::vec_ext::{
    answers_by, kept, lemma_retain_filter_by_predicate, lemma_retain_filter_partitions,
    partition_in_order, picked, VecExt,
};

verus! {

/// The record of `t` after a poll that gave `outcome`.
pub open spec fn polled(t: Task, outcome: PollOutcome) -> Task {
    Task {
        id: t.id,
        signal: crate::signal::Signal {
            state: match outcome {
                PollOutcome::Pending => SignalState::Waiting,
                PollOutcome::Ready => SignalState::Ready,
            },
        },
    }
}

/// Whether the task is still to be kept: it has not finished.
pub open spec fn unfinished(t: Task) -> bool {
    t.signal.state != SignalState::Ready
}

/// Whether the task is due for a poll.
pub open spec fn awaked(t: Task) -> bool {
    t.signal.state == SignalState::Awaked
}

/// Keeps the tasks that have not finished, in order.
pub(crate) fn retain_unfinished(tasks: Vec<Task>) -> (remaining: Vec<Task>)
    ensures
        remaining@ == tasks@.filter(|t: Task| unfinished(t)),
{
    let is_unfinished = |t: &Task| -> (r: bool)
        ensures
            r == unfinished(*t),
        { t.signal.state != SignalState::Ready };
    let (remaining, _finished) = partition_in_order(
        tasks,
        is_unfinished,
        Ghost(|t: Task| unfinished(t)),
    );
    remaining
}

/// An event of the single-threaded pool's update: the round starts, or the
/// task that the pool asked for was polled.
#[derive(Debug, PartialEq, Eq, Structural, Clone, Copy)]
pub enum PoolEvent {
    Start,
    Polled(PollOutcome),
}

/// The request of the single-threaded pool to the code that drives it: to
/// poll the future of a task, or nothing more this round.
#[derive(Debug, PartialEq, Eq, Structural, Clone, Copy)]
pub enum PoolAction {
    Poll(TaskId),
    Done,
}

/// One step of a round of the single-threaded pool, from `pre` to `post`,
/// on `event`, asking `action`: the outcome of the last poll is recorded,
/// then the next due task after the last one polled is asked for; when none
/// is left, the finished tasks are dropped and the round ends.
pub open spec fn stepped(pre: SingleThreadedPool, event: PoolEvent, post: SingleThreadedPool, action: PoolAction) -> bool {
    match action {
        PoolAction::Poll(id) => {
            let j = post.current->0 as int;
            &&& post.current is Some
            &&& pre.search_from(event) <= j < pre.tasks_after(event).len()
            &&& post.tasks@ == pre.tasks_after(event)
            &&& awaked(post.tasks@[j])
            &&& id == post.tasks@[j].id
            &&& forall|k: int|
                pre.search_from(event) <= k < j ==> !awaked(
                    #[trigger] post.tasks@[k],
                )
        },
        PoolAction::Done => {
            &&& post.current is None
            &&& post.tasks@ == pre.tasks_after(event).filter(
                |t: Task| unfinished(t),
            )
            &&& forall|k: int|
                pre.search_from(event) <= k < pre.tasks_after(event).len()
                    ==> !awaked(#[trigger] pre.tasks_after(event)[k])
        },
    }
}

/// The worker of the single-threaded mode: it polls, in order, every task
/// that is due, and drops the finished ones at the end of each round.
pub struct SingleThreadedPool {
    pub tasks: Vec<Task>,
    /// The index of the task being polled, while a round runs.
    pub current: Option<usize>,
}

impl SingleThreadedPool {
    /// An idle pool with no tasks.
    pub fn new() -> (pool: Self)
        ensures
            pool.tasks@ == Seq::<Task>::empty(),
            pool.current is None,
    {
        SingleThreadedPool { tasks: Vec::new(), current: None }
    }

    /// Takes over `tasks`, after those it already has.
    pub fn add_tasks(&mut self, tasks: Vec<Task>)
        ensures
            final(self).tasks@ == old(self).tasks@ + tasks@,
            final(self).current == old(self).current,
    {
        let mut tasks = tasks;
        self.tasks.append(&mut tasks);
    }

    /// The tasks of the round once `event` is applied: a poll's outcome is
    /// recorded on the task that was polled.
    pub open spec fn tasks_after(self, event: PoolEvent) -> Seq<Task> {
        match event {
            PoolEvent::Start => self.tasks@,
            PoolEvent::Polled(outcome) => self.tasks@.update(
                self.current->0 as int,
                polled(self.tasks@[self.current->0 as int], outcome),
            ),
        }
    }

    /// Where the search for the next due task starts once `event` is applied.
    pub open spec fn search_from(self, event: PoolEvent) -> int {
        match event {
            PoolEvent::Start => 0,
            PoolEvent::Polled(_) => self.current->0 + 1,
        }
    }

    /// One step of a round: records the outcome of the last poll, then asks
    /// for the next task, after the last one polled, that is due; when none
    /// is left, drops the finished tasks and ends the round.
    pub fn update(&mut self, event: PoolEvent) -> (action: PoolAction)
        requires
            event is Polled ==> old(self).current is Some && old(self).current->0
                < old(self).tasks@.len(),
        ensures
            stepped(*old(self), event, *final(self), action),
    {
        let mut from: usize = 0;
        match event {
            PoolEvent::Start => {},
            PoolEvent::Polled(outcome) => {
                let i = match self.current {
                    Some(i) => i,
                    None => 0,
                };
                self.tasks[i].poll(outcome);
                assert(self.tasks@ =~= old(self).tasks_after(event));
                assert(i < self.tasks.len());
                from = i + 1;
            },
        }
        let mut j = from;
        while j < self.tasks.len()
            invariant
                from <= j <= self.tasks@.len(),
                self.tasks@ == old(self).tasks_after(event),
                from == old(self).search_from(event),
                forall|k: int| from <= k < j ==> !awaked(#[trigger] self.tasks@[k]),
            decreases self.tasks@.len() - j,
        {
            if self.tasks[j].signal.state == SignalState::Awaked {
                self.current = Some(j);
                return PoolAction::Poll(self.tasks[j].id);
            }
            j = j + 1;
        }
        let mut tasks: Vec<Task> = Vec::new();
        std::mem::swap(&mut tasks, &mut self.tasks);
        self.tasks = retain_unfinished(tasks);
        self.current = None;
        PoolAction::Done
    }
}

/// The number of free workers among the first `w`.
pub open spec fn free_before(available: Seq<bool>, w: int) -> nat
    decreases w,
{
    if w <= 0 {
        0
    } else {
        free_before(available, w - 1) + if available[w - 1] {
            1nat
        } else {
            0nat
        }
    }
}

/// The due tasks that the multi-threaded pool hands out in one update: those
/// that `retain_filter` takes out of its queue.
pub open spec fn due_tasks(queue: Seq<Task>) -> Seq<Task> {
    picked(queue, answers_by(queue, |t: Task| awaked(t)))
}

/// The tasks that stay queued in the multi-threaded pool after one update.
pub open spec fn not_due_tasks(queue: Seq<Task>) -> Seq<Task> {
    kept(queue, answers_by(queue, |t: Task| awaked(t)))
}

/// The smaller of two counts.
pub open spec fn min_count(a: int, b: int) -> int {
    if a <= b {
        a
    } else {
        b
    }
}

/// What one update of the multi-threaded pool decided: which task goes to
/// which worker, and which due tasks found no worker and are dropped.
pub struct DispatchPlan {
    pub assignments: Vec<(usize, TaskId)>,
    pub dropped: Vec<TaskId>,
}

/// What one update of the multi-threaded pool does to a pool whose waiting
/// and returned tasks are `queue`, whose workers run `running` and are free
/// as `available` says, giving `post` and deciding `plan`: it takes back the tasks that workers returned, takes the
/// due tasks out of the queue, and hands them, last first, to the free
/// workers in worker order; the due tasks left over when the free workers run
/// out are dropped.
pub open spec fn dispatched(
    queue: Seq<Task>,
    running: Seq<(usize, Task)>,
    available: Seq<bool>,
    post: MultiThreadedPool,
    plan: DispatchPlan,
) -> bool {
    let due = due_tasks(queue);
    let free = free_before(available, available.len() as int);
    let m = min_count(free as int, due.len() as int);
    &&& post.tasks@ == not_due_tasks(queue)
    &&& post.returned@ == Seq::<Task>::empty()
    &&& post.available@.len() == available.len()
    &&& plan.assignments@.len() == m
    &&& post.running@.len() == running.len() + m
    &&& post.running@.subrange(0, running.len() as int) == running
    &&& forall|k: int|
        #![trigger plan.assignments@[k]]
        0 <= k < m ==> {
            let w = plan.assignments@[k].0 as int;
            &&& 0 <= w < available.len()
            &&& available[w]
            &&& free_before(available, w) == k
            &&& plan.assignments@[k].1 == due[due.len() - 1 - k].id
            &&& post.running@[running.len() + k] == (
                w as usize,
                due[due.len() - 1 - k],
            )
        }
    &&& forall|w: int|
        0 <= w < available.len() ==> #[trigger] post.available@[w] == (available[w]
            && free_before(available, w) >= due.len())
    &&& plan.dropped@ == due.subrange(0, due.len() - m).map_values(|t: Task| t.id)
}

/// The worker pool of the multi-threaded mode: due tasks are handed to free
/// workers, and workers hand back the tasks that have not finished.
pub struct MultiThreadedPool {
    /// Tasks waiting in the pool.
    pub tasks: Vec<Task>,
    /// Tasks that workers handed back, not yet taken in by an update.
    pub returned: Vec<Task>,
    /// Tasks handed to workers, each with its worker.
    pub running: Vec<(usize, Task)>,
    /// Whether each worker is free for a task.
    pub available: Vec<bool>,
}

impl MultiThreadedPool {
    /// A pool of `num_worker` free workers and no tasks, with the handle of
    /// each worker: the handle through which the tasks that the worker runs
    /// reach the event loop, with nothing queued yet.
    pub fn new<W>(num_worker: usize) -> (made: (Self, Vec<EventLoopHandle<W>>))
        ensures
            made.0.tasks@ == Seq::<Task>::empty(),
            made.0.returned@ == Seq::<Task>::empty(),
            made.0.running@ == Seq::<(usize, Task)>::empty(),
            made.0.available@ == Seq::new(num_worker as nat, |w: int| true),
            made.1@.len() == num_worker,
            forall|w: int|
                0 <= w < num_worker ==> (#[trigger] made.1@[w]).queues.tasks@ == Seq::<Task>::empty()
                    && made.1@[w].queues.timers@ == Seq::<Timer<W>>::empty(),
    {
        let mut available: Vec<bool> = Vec::new();
        let mut handles: Vec<EventLoopHandle<W>> = Vec::new();
        let mut w: usize = 0;
        while w < num_worker
            invariant
                w <= num_worker,
                available@ == Seq::new(w as nat, |i: int| true),
                handles@.len() == w,
                forall|v: int|
                    0 <= v < w ==> (#[trigger] handles@[v]).queues.tasks@ == Seq::<Task>::empty()
                        && handles@[v].queues.timers@ == Seq::<Timer<W>>::empty(),
            decreases num_worker - w,
        {
            available.push(true);
            handles.push(EventLoopHandle::new());
            w = w + 1;
            assert(available@ =~= Seq::new(w as nat, |i: int| true));
        }
        let pool = MultiThreadedPool {
            tasks: Vec::new(),
            returned: Vec::new(),
            running: Vec::new(),
            available,
        };
        (pool, handles)
    }

    /// Takes over `tasks`, after those it already has.
    pub fn add_tasks(&mut self, tasks: Vec<Task>)
        ensures
            final(self).tasks@ == old(self).tasks@ + tasks@,
            final(self).returned == old(self).returned,
            final(self).running == old(self).running,
            final(self).available == old(self).available,
    {
        let mut tasks = tasks;
        self.tasks.append(&mut tasks);
    }

    /// One update: takes back the tasks that workers returned, takes the due
    /// tasks out of the queue, and hands them, last first, to the free
    /// workers in worker order; the due tasks left over when the free
    /// workers run out are dropped.
    pub fn update(&mut self) -> (plan: DispatchPlan)
        ensures
            dispatched(
                old(self).tasks@ + old(self).returned@,
                old(self).running@,
                old(self).available@,
                *final(self),
                plan,
            ),
    {
        let ghost avail = self.available@;
        let ghost old_running = self.running@;
        let mut returned: Vec<Task> = Vec::new();
        std::mem::swap(&mut returned, &mut self.returned);
        self.tasks.append(&mut returned);
        let ghost queue = self.tasks@;
        let is_due = |t: &Task| -> (r: bool)
            ensures
                r == awaked(*t),
            { t.signal.state == SignalState::Awaked };
        let mut awaked_tasks = self.tasks.retain_filter(is_due);
        proof {
            let b = choose|b: Seq<bool>|
                {
                    &&& crate::vec_ext::answers_of(is_due, queue, b)
                    &&& awaked_tasks@ == picked(queue, b)
                    &&& self.tasks.elements() == kept(queue, b)
                };
            assert(b =~= answers_by(queue, |t: Task| awaked(t)));
        }
        let ghost due = awaked_tasks@;
        let mut assignments: Vec<(usize, TaskId)> = Vec::new();
        let mut w: usize = 0;
        let n = self.available.len();
        while w < n
            invariant
                n == avail.len(),
                w <= n,
                queue == old(self).tasks@ + old(self).returned@,
                avail == old(self).available@,
                old_running == old(self).running@,
                due == due_tasks(queue),
                self.tasks@ == not_due_tasks(queue),
                self.returned@ == Seq::<Task>::empty(),
                self.available@.len() == n,
                ({
                    let m = min_count(free_before(avail, w as int) as int, due.len() as int);
                    &&& assignments@.len() == m
                    &&& awaked_tasks@ == due.subrange(0, due.len() - m)
                    &&& self.running@.len() == old_running.len() + m
                    &&& self.running@.subrange(0, old_running.len() as int) == old_running
                    &&& forall|k: int|
                        #![trigger assignments@[k]]
                        0 <= k < m ==> {
                            let v = assignments@[k].0 as int;
                            &&& 0 <= v < w
                            &&& avail[v]
                            &&& free_before(avail, v) == k
                            &&& assignments@[k].1 == due[due.len() - 1 - k].id
                            &&& self.running@[old_running.len() + k] == (v as usize, due[due.len() - 1 - k])
                        }
                }),
                forall|v: int|
                    0 <= v < n ==> #[trigger] self.available@[v] == if v < w {
                        avail[v] && free_before(avail, v) >= due.len()
                    } else {
                        avail[v]
                    },
            decreases n - w,
        {
            let ghost m = min_count(free_before(avail, w as int) as int, due.len() as int);
            if self.available[w] {
                match awaked_tasks.pop() {
                    Some(task) => {
                        let id = task.id;
                        self.available.set(w, false);
                        self.running.push((w, task));
                        assignments.push((w, id));
                        proof {
                            assert(m < due.len());
                            assert(self.running@.subrange(0, old_running.len() as int) =~= old_running);
                        }
                    },
                    None => {
                        proof {
                            assert(m == due.len());
                            assert forall|v: int| 0 <= v < n implies #[trigger] self.available@[v]
                                == (avail[v] && free_before(avail, v) >= due.len()) by {
                                if v >= w {
                                    if v > w {
                                        lemma_free_before_monotone(avail, w as int, v);
                                    }
                                }
                            }
                            lemma_free_before_monotone(avail, w as int, n as int);
                        }
                        let dropped: Vec<TaskId> = Vec::new();
                        proof {
                            assert(dropped@ =~= due.subrange(0, due.len() - m).map_values(|t: Task| t.id));
                        }
                        return DispatchPlan { assignments, dropped };
                    },
                }
            }
            w = w + 1;
        }
        let mut dropped: Vec<TaskId> = Vec::new();
        let mut i: usize = 0;
        while i < awaked_tasks.len()
            invariant
                i <= awaked_tasks@.len(),
                dropped@ == awaked_tasks@.subrange(0, i as int).map_values(|t: Task| t.id),
            decreases awaked_tasks@.len() - i,
        {
            dropped.push(awaked_tasks[i].id);
            i = i + 1;
            assert(dropped@ =~= awaked_tasks@.subrange(0, i as int).map_values(|t: Task| t.id));
        }
        assert(awaked_tasks@.subrange(0, i as int) =~= awaked_tasks@);
        DispatchPlan { assignments, dropped }
    }

    /// A worker finished polling its task with `outcome`: the task is handed
    /// back unless it finished, and the worker is free again. A worker with no
    /// task leaves the pool as it is.
    pub fn finish_poll(&mut self, worker: usize, outcome: PollOutcome)
        requires
            worker < old(self).available@.len(),
        ensures
            ({
                let found = exists|k: int|
                    0 <= k < old(self).running@.len() && #[trigger] old(self).running@[k].0
                        == worker;
                &&& !found ==> *final(self) == *old(self)
                &&& found ==> exists|k: int|
                    {
                        &&& 0 <= k < old(self).running@.len()
                        &&& old(self).running@[k].0 == worker
                        &&& forall|j: int| 0 <= j < k ==> #[trigger] old(self).running@[j].0 != worker
                        &&& final(self).running@ == old(self).running@.remove(k)
                        &&& final(self).tasks@ == old(self).tasks@
                        &&& final(self).available@ == old(self).available@.update(worker as int, true)
                        &&& final(self).returned@ == if unfinished(polled(old(self).running@[k].1, outcome)) {
                            old(self).returned@.push(polled(old(self).running@[k].1, outcome))
                        } else {
                            old(self).returned@
                        }
                    }
            }),
    {
        let mut k: usize = 0;
        while k < self.running.len()
            invariant
                k <= self.running@.len(),
                *self == *old(self),
                worker < self.available@.len(),
                forall|j: int| 0 <= j < k ==> #[trigger] self.running@[j].0 != worker,
            decreases self.running@.len() - k,
        {
            if self.running[k].0 == worker {
                let (_w, mut task) = self.running.remove(k);
                task.poll(outcome);
                assert(task == polled(old(self).running@[k as int].1, outcome));
                if task.signal.state != SignalState::Ready {
                    self.returned.push(task);
                }
                self.available.set(worker, true);
                return;
            }
            k = k + 1;
        }
    }
}

/// Counting free workers never goes down as more workers are counted.
pub proof fn lemma_free_before_monotone(available: Seq<bool>, v: int, w: int)
    requires
        0 <= v <= w,
    ensures
        free_before(available, v) <= free_before(available, w),
    decreases w - v,
{
    if v < w {
        lemma_free_before_monotone(available, v, w - 1);
    }
}

/// An update of the multi-threaded pool loses exactly the due tasks that it
/// drops: the tasks it holds afterwards, waiting, returned or running,
/// together with the dropped ones, are the tasks it held before.
pub proof fn lemma_dispatch_loses_only_dropped(
    queue: Seq<Task>,
    running: Seq<(usize, Task)>,
    available: Seq<bool>,
    post: MultiThreadedPool,
    plan: DispatchPlan,
)
    requires
        dispatched(queue, running, available, post, plan),
    ensures
        ({
            let due = due_tasks(queue);
            let m = min_count(free_before(available, available.len() as int) as int, due.len() as int);
            (post.tasks@ + post.returned@ + post.running@.map_values(|p: (usize, Task)| p.1)).to_multiset().add(
                due.subrange(0, due.len() - m).to_multiset(),
            ) == (queue + running.map_values(|p: (usize, Task)| p.1)).to_multiset()
        }),
{
    broadcast use vstd::seq_lib::group_to_multiset_ensures;
    broadcast use vstd::multiset::group_multiset_axioms;

    let by = answers_by(queue, |t: Task| awaked(t));
    let d = due_tasks(queue);
    let m = min_count(free_before(available, available.len() as int) as int, d.len() as int);
    let k = post.tasks@;
    let r0 = running.map_values(|p: (usize, Task)| p.1);
    let r1 = post.running@.map_values(|p: (usize, Task)| p.1);
    let d0 = d.subrange(0, d.len() - m);
    let d1 = d.subrange(d.len() - m, d.len() as int);
    let a = d1.reverse();
    lemma_retain_filter_partitions(queue, by);
    assert(r1 =~= r0 + a) by {
        assert forall|i: int| 0 <= i < r1.len() implies #[trigger] r1[i] == (r0 + a)[i] by {
            if i < r0.len() {
                assert(post.running@[i] == post.running@.subrange(0, running.len() as int)[i]);
            } else {
                let j = i - r0.len();
                assert(plan.assignments@[j] == plan.assignments@[j]);
            }
        }
    }
    assert(d =~= d0 + d1);
    vstd::seq_lib::lemma_multiset_commutative(d0, d1);
    d1.lemma_reverse_to_multiset();
    vstd::seq_lib::lemma_multiset_commutative(k, Seq::<Task>::empty());
    vstd::seq_lib::lemma_multiset_commutative(k + Seq::<Task>::empty(), r1);
    vstd::seq_lib::lemma_multiset_commutative(r0, a);
    vstd::seq_lib::lemma_multiset_commutative(queue, r0);
    assert(post.returned@ =~= Seq::<Task>::empty());
    assert(Seq::<Task>::empty().to_multiset() =~= Multiset::empty());
    assert((k + post.returned@ + r1).to_multiset().add(d0.to_multiset()) =~= (queue + r0).to_multiset());
}

/// In the multi-threaded pool, an update drops due tasks only when there are
/// more of them than free workers: with enough free workers every due task
/// goes to a worker.
pub proof fn lemma_enough_workers_drop_nothing(due: Seq<Task>, free: int)
    requires
        free >= due.len(),
    ensures
        due.subrange(0, due.len() - min_count(free, due.len() as int)).len() == 0,
{
}

/// Recording a poll keeps the task's name; a pending task waits, a finished
/// one is ready, and only a finished one is dropped at the end of a round.
pub proof fn lemma_poll_outcome_recorded(t: Task, outcome: PollOutcome)
    ensures
        polled(t, outcome).id == t.id,
        outcome == PollOutcome::Pending ==> polled(t, outcome).signal.state == SignalState::Waiting,
        outcome == PollOutcome::Ready ==> polled(t, outcome).signal.state == SignalState::Ready,
        unfinished(polled(t, outcome)) <==> outcome == PollOutcome::Pending,
        awaked(t) <==> t.signal.state == SignalState::Awaked,
        unfinished(t) <==> t.signal.state != SignalState::Ready,
{
}

/// A step of the single-threaded round asks to poll only a task that is due,
/// by that task's name, and leaves the tasks where they are; the round ends
/// with no finished task left and every unfinished one kept.
pub proof fn lemma_round_step(
    pre: SingleThreadedPool,
    event: PoolEvent,
    post: SingleThreadedPool,
    action: PoolAction,
)
    requires
        stepped(pre, event, post, action),
    ensures
        action matches PoolAction::Poll(id) ==> {
            &&& post.current is Some
            &&& 0 <= post.current->0 < post.tasks@.len()
            &&& post.tasks@[post.current->0 as int].signal.state == SignalState::Awaked
            &&& post.tasks@[post.current->0 as int].id == id
            &&& post.tasks@.len() == pre.tasks_after(event).len()
        },
        action is Done ==> {
            &&& post.current is None
            &&& forall|i: int|
                0 <= i < post.tasks@.len() ==> (#[trigger] post.tasks@[i]).signal.state
                    != SignalState::Ready
            &&& forall|i: int|
                0 <= i < pre.tasks_after(event).len() && (#[trigger] pre.tasks_after(event)[i]).signal.state
                    != SignalState::Ready ==> post.tasks@.contains(pre.tasks_after(event)[i])
        },
{
    broadcast use vstd::seq_lib::group_filter_ensures;

    if action is Done {
        let s = pre.tasks_after(event);
        let p = |t: Task| unfinished(t);
        assert forall|i: int| 0 <= i < post.tasks@.len() implies (#[trigger] post.tasks@[i]).signal.state
            != SignalState::Ready by {
            assert(p(s.filter(p)[i]));
        }
        assert forall|i: int|
            0 <= i < s.len() && (#[trigger] s[i]).signal.state != SignalState::Ready implies post.tasks@.contains(
                s[i],
            ) by {
            assert(p(s[i]));
        }
    }
}

/// Whether the `k`-th assignment of `plan` hands a due task of `queue`, by
/// its name, to a worker that was free and is busy afterwards.
pub open spec fn handed_out_well(
    queue: Seq<Task>,
    running: Seq<(usize, Task)>,
    available: Seq<bool>,
    post: MultiThreadedPool,
    plan: DispatchPlan,
    k: int,
) -> bool {
    let w = plan.assignments@[k].0 as int;
    let task = post.running@[running.len() + k].1;
    &&& 0 <= w < available.len()
    &&& available[w]
    &&& !post.available@[w]
    &&& post.running@[running.len() + k].0 == w
    &&& task.signal.state == SignalState::Awaked
    &&& task.id == plan.assignments@[k].1
    &&& queue.contains(task)
}

/// An update of the multi-threaded pool hands out only due tasks, each to a
/// worker that was free, no worker twice, and each by its own name; the
/// tasks that stay queued are not due.
pub proof fn lemma_dispatch_hands_due_tasks_to_free_workers(
    queue: Seq<Task>,
    running: Seq<(usize, Task)>,
    available: Seq<bool>,
    post: MultiThreadedPool,
    plan: DispatchPlan,
)
    requires
        dispatched(queue, running, available, post, plan),
    ensures
        forall|k: int|
            0 <= k < plan.assignments@.len() ==> #[trigger] handed_out_well(
                queue,
                running,
                available,
                post,
                plan,
                k,
            ),
        forall|k1: int, k2: int|
            0 <= k1 < plan.assignments@.len() && 0 <= k2 < plan.assignments@.len() && k1 != k2
                ==> #[trigger] plan.assignments@[k1].0 != #[trigger] plan.assignments@[k2].0,
        forall|i: int|
            0 <= i < post.tasks@.len() ==> (#[trigger] post.tasks@[i]).signal.state != SignalState::Awaked,
{
    broadcast use vstd::seq_lib::group_filter_ensures;

    let p = |t: Task| awaked(t);
    lemma_retain_filter_by_predicate(queue, p);
    let due = due_tasks(queue);
    assert(due == queue.filter(p).reverse());
    assert forall|k: int| 0 <= k < plan.assignments@.len() implies #[trigger] handed_out_well(
        queue,
        running,
        available,
        post,
        plan,
        k,
    ) by {
        let w = plan.assignments@[k].0 as int;
        let j = due.len() - 1 - k;
        let f = queue.filter(p);
        assert(due[j] == f[f.len() - 1 - j]);
        assert(p(f[f.len() - 1 - j]));
        assert(f.contains(f[f.len() - 1 - j]));
        queue.lemma_filter_contains_rev(p, f[f.len() - 1 - j]);
        assert(post.available@[w] == (available[w] && free_before(available, w) >= due.len()));
    }
    assert forall|i: int| 0 <= i < post.tasks@.len() implies (#[trigger] post.tasks@[i]).signal.state
        != SignalState::Awaked by {
        assert(!p(kept(queue, answers_by(queue, p))[i]));
    }
}

} // verus!
