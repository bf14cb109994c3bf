use vstd::prelude::*;
use crate::event_loop::EventLoopHandle;
use crate::signal::SignalState;
use crate::task::TaskId;

verus! {

/// The slot through which a spawned task hands its output to its join
/// handle, and through which the join handle asks to be woken.
pub struct ThreadResult<T, W> {
    pub inner: Option<T>,
    pub waker: Option<W>,
}

impl<T, W> ThreadResult<T, W> {
    /// An empty slot: no output yet, nobody waiting.
    pub fn new() -> (r: Self)
        ensures
            r.inner is None,
            r.waker is None,
    {
        ThreadResult { inner: None, waker: None }
    }

    /// The slot once the task stored `value` in it and its waker was taken.
    pub open spec fn completed_with(self, value: T) -> Self {
        ThreadResult { inner: Some(value), waker: None }
    }

    /// Stores the task's output and takes the registered waker, which the
    /// caller wakes.
    pub fn complete(&mut self, value: T) -> (to_wake: Option<W>)
        ensures
            *final(self) == old(self).completed_with(value),
            to_wake == old(self).waker,
    {
        self.inner = Some(value);
        self.waker.take()
    }
}

impl<T, W> Default for ThreadResult<T, W> {
    fn default() -> (r: Self)
        ensures
            r.inner is None,
            r.waker is None,
    {
        ThreadResult::new()
    }
}

/// The awaiting side of a spawned task.
pub struct JoinHandle {
    pub has_registered: bool,
}

impl JoinHandle {
    /// A handle that has not yet asked to be woken.
    pub fn new() -> (h: JoinHandle)
        ensures
            !h.has_registered,
    {
        JoinHandle { has_registered: false }
    }

    /// Whether the task's output is there to be taken.
    pub fn is_ready<T, W>(&self, result: &ThreadResult<T, W>) -> (ready: bool)
        ensures
            ready == result.inner is Some,
    {
        result.inner.is_some()
    }

    /// The slot after one poll of this handle with `waker`: the output is
    /// taken, and the waker registered if this is the first poll.
    pub open spec fn slot_after_poll<T, W>(self, result: ThreadResult<T, W>, waker: W) -> ThreadResult<T, W> {
        ThreadResult {
            inner: None,
            waker: if self.has_registered {
                result.waker
            } else {
                Some(waker)
            },
        }
    }

    /// One poll of the handle: the first poll registers `waker` in the slot;
    /// every poll takes the output if it is there.
    pub fn poll<T, W>(&mut self, result: &mut ThreadResult<T, W>, waker: W) -> (output: Option<T>)
        ensures
            final(self).has_registered,
            output == old(result).inner,
            *final(result) == old(self).slot_after_poll(*old(result), waker),
    {
        if !self.has_registered {
            result.waker = Some(waker);
            self.has_registered = true;
        }
        result.inner.take()
    }
}

/// Spawns the task that the host keeps under `id` on the event loop of
/// `handle`: the task is queued, due for its first poll, and comes back with
/// the empty slot for its output and the handle to await it.
pub fn spawn<T, W>(handle: &mut EventLoopHandle<W>, id: TaskId) -> (spawned: (JoinHandle, ThreadResult<T, W>))
    ensures
        final(handle).queues.tasks@.len() == old(handle).queues.tasks@.len() + 1,
        final(handle).queues.tasks@.drop_last() == old(handle).queues.tasks@,
        final(handle).queues.tasks@.last().id == id,
        final(handle).queues.tasks@.last().signal.state == SignalState::Awaked,
        final(handle).queues.timers@ == old(handle).queues.timers@,
        !spawned.0.has_registered,
        spawned.1.inner is None,
        spawned.1.waker is None,
{
    let result = ThreadResult::new();
    handle.spawn(id);
    (JoinHandle::new(), result)
}

/// A task's output reaches its handle, once: once the task completed with
/// `value`, polling the handle gives `value`, and a second poll gives nothing.
pub proof fn lemma_join_returns_output<T, W>(
    slot: ThreadResult<T, W>,
    value: T,
    handle: JoinHandle,
    waker: W,
    again: JoinHandle,
    waker2: W,
)
    ensures
        slot.completed_with(value).inner == Some(value),
        handle.slot_after_poll(slot.completed_with(value), waker).inner is None,
        again.slot_after_poll(handle.slot_after_poll(slot.completed_with(value), waker), waker2).inner is None,
{
}

/// A handle asks to be woken once: its first poll registers its waker, and
/// every later poll leaves the registered waker as it is; every poll leaves
/// the slot without output. Completing the task stores its output and takes
/// the waker away to be woken.
pub proof fn lemma_join_registers_once<T, W>(
    first: JoinHandle,
    later: JoinHandle,
    slot: ThreadResult<T, W>,
    waker: W,
    value: T,
)
    requires
        !first.has_registered,
        later.has_registered,
    ensures
        first.slot_after_poll(slot, waker).waker == Some(waker),
        later.slot_after_poll(slot, waker).waker == slot.waker,
        first.slot_after_poll(slot, waker).inner is None,
        later.slot_after_poll(slot, waker).inner is None,
        slot.completed_with(value).waker is None,
        slot.completed_with(value).inner == Some(value),
{
}

} // verus!
