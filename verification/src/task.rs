use vstd::prelude::*;
use crate::signal::{Signal, SignalState};

verus! {

/// The name under which the host keeps a task's future and by which its
/// wakers reach it.
pub type TaskId = u64;

/// What polling a task's future gave.
#[derive(Debug, PartialEq, Eq, Structural, Clone, Copy)]
pub enum PollOutcome {
    Pending,
    Ready,
}

/// The runtime's record of a spawned task: its name and its signal.
#[derive(Debug)]
pub struct Task {
    pub id: TaskId,
    pub signal: Signal,
}

impl Task {
    /// A newly spawned task, due for its first poll.
    pub fn new(id: TaskId) -> (task: Task)
        ensures
            task.id == id,
            task.signal.state == SignalState::Awaked,
    {
        Task { id, signal: Signal::new() }
    }

    /// Records what polling the task's future gave: a pending task waits for
    /// a wake, a finished one is ready to be removed.
    pub fn poll(&mut self, outcome: PollOutcome)
        ensures
            final(self).id == old(self).id,
            final(self).signal.state == (match outcome {
                PollOutcome::Pending => SignalState::Waiting,
                PollOutcome::Ready => SignalState::Ready,
            }),
    {
        match outcome {
            PollOutcome::Pending => {
                self.signal.pause();
            },
            PollOutcome::Ready => {
                self.signal.ready();
            },
        }
    }
}

} // verus!
