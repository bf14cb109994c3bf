use vstd::prelude::*;
use crate::event_loop::Timer;

verus! {

/// A future that completes once the clock reaches its completion time.
/// Times are ticks of the host's monotonic clock.
pub struct SleepFuture {
    pub completion_time: u64,
    pub is_spawned: bool,
}

/// What one poll of a sleep decided: the timer to hand to the current event
/// loop, if any, and whether the sleep is over.
pub struct SleepPoll<W> {
    pub timer: Option<Timer<W>>,
    pub ready: bool,
}

impl SleepFuture {
    /// Whether the sleep is over at time `now`.
    pub open spec fn over_at(self, now: u64) -> bool {
        self.completion_time <= now
    }

    /// A sleep of `duration` ticks starting at `now`.
    pub fn new(now: u64, duration: u64) -> (f: SleepFuture)
        requires
            now + duration <= u64::MAX,
        ensures
            f.completion_time == now + duration,
            !f.is_spawned,
    {
        SleepFuture { completion_time: now + duration, is_spawned: false }
    }

    /// One poll at time `now` by the task that `waker` wakes: the first poll
    /// asks for a timer at the completion time; the sleep is over once the
    /// completion time is reached.
    pub fn poll<W>(&mut self, now: u64, waker: W) -> (r: SleepPoll<W>)
        ensures
            final(self).completion_time == old(self).completion_time,
            final(self).is_spawned,
            r.timer == if old(self).is_spawned {
                None
            } else {
                Some(Timer { time: old(self).completion_time, waker })
            },
            r.ready == old(self).over_at(now),
    {
        let completion_time = self.completion_time;
        let mut timer = None;
        if !self.is_spawned {
            timer = Some(Timer { time: completion_time, waker });
            self.is_spawned = true;
        }
        SleepPoll { timer, ready: completion_time <= now }
    }
}

/// Once a sleep is over it stays over: polled at any later time, it is over
/// too.
pub proof fn lemma_sleep_stays_over(f: SleepFuture, now: u64, later: u64)
    requires
        f.over_at(now),
        now <= later,
    ensures
        f.over_at(later),
{
}

/// A sleep of `duration` ticks started at `now` is over exactly from
/// `now + duration` on: never before, always at or after.
pub proof fn lemma_sleep_lasts_its_duration(f: SleepFuture, now: u64, duration: u64, t: u64)
    requires
        f.completion_time == now + duration,
    ensures
        f.over_at(t) <==> t >= now + duration,
        t < now + duration ==> !f.over_at(t),
{
}

} // verus!
