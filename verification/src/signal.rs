use vstd::prelude::*;

verus! {

/// The scheduling state of a task, shared between the task and its wakers.
#[derive(Debug, PartialEq, Eq, Structural, Clone, Copy)]
pub enum SignalState {
    /// Task is running / assigned to the worker pool
    Running,
    /// Task waiting to be assigned to a worker
    Awaked,
    /// Task is waiting to be awaked
    Waiting,
    /// Task is done, and can be removed
    Ready,
}

/// The signal of a task: waking it marks the task as due for a poll.
#[derive(Debug)]
pub struct Signal {
    pub state: SignalState,
}

impl Signal {
    /// A fresh task is due for its first poll.
    pub fn new() -> (signal: Signal)
        ensures
            signal.state == SignalState::Awaked,
    {
        Signal { state: SignalState::Awaked }
    }

    /// The task returned `Pending`: it waits for a wake.
    pub fn pause(&mut self)
        ensures
            final(self).state == SignalState::Waiting,
    {
        self.state = SignalState::Waiting;
    }

    /// A waker fired: the task is due for a poll again.
    pub fn notify(&mut self)
        ensures
            final(self).state == SignalState::Awaked,
    {
        self.state = SignalState::Awaked;
    }

    /// The task finished: it can be removed.
    pub fn ready(&mut self)
        ensures
            final(self).state == SignalState::Ready,
    {
        self.state = SignalState::Ready;
    }

    /// Waking the signal by value notifies it.
    pub fn wake(&mut self)
        ensures
            final(self).state == SignalState::Awaked,
    {
        self.notify();
    }

    /// Waking the signal by reference notifies it.
    pub fn wake_by_ref(&mut self)
        ensures
            final(self).state == SignalState::Awaked,
    {
        self.notify();
    }
}

} // verus!
