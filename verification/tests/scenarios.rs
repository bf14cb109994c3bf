//! The runtime's own scenarios, driven step by step through the core the way
//! the event loop drives it: the futures' behaviour is played by hand, and a
//! waker is the name of the task it wakes.
use async_runtime::event_loop::{EventLoop, EventLoopMode};
use async_runtime::sleep::SleepFuture;
use async_runtime::task::PollOutcome;
use async_runtime::thread::{spawn, JoinHandle, ThreadResult};
use async_runtime::thread_pool::{PoolAction, PoolEvent};

type Core = EventLoop<u64>;

/// One update of a single-threaded loop at time `now`, with `poll` playing
/// the futures: it gets the core and the task's name and gives the outcome.
fn update(core: &mut Core, now: u64, poll: &mut dyn FnMut(&mut Core, u64) -> PollOutcome) -> Vec<u64> {
    for w in core.fire_timers(now) {
        core.wake(w);
    }
    core.dispatch();
    let mut polled = Vec::new();
    let mut action = core.poll_step(PoolEvent::Start);
    while let PoolAction::Poll(id) = action {
        polled.push(id);
        let outcome = poll(core, id);
        action = core.poll_step(PoolEvent::Polled(outcome));
    }
    core.finish_update();
    polled
}

#[test]
fn thread_return_type_not_unit() {
    let mut core: Core = EventLoop::new(1);
    let (main_join, mut main_slot): (JoinHandle, ThreadResult<(), u64>) = spawn(core.handle_mut(0), 0);
    let mut child: Option<(JoinHandle, ThreadResult<u32, u64>)> = None;
    let mut got: Option<u32> = None;
    let mut play = |core: &mut Core, id: u64| -> PollOutcome {
        match id {
            0 => {
                if child.is_none() {
                    child = Some(spawn(core.handle_mut(0), 1));
                }
                let (join, slot) = child.as_mut().unwrap();
                match join.poll(slot, 0) {
                    Some(v) => {
                        got = Some(v);
                        assert_eq!(main_slot.complete(()), None);
                        PollOutcome::Ready
                    }
                    None => PollOutcome::Pending,
                }
            }
            1 => {
                let (_, slot) = child.as_mut().unwrap();
                if let Some(w) = slot.complete(42) {
                    core.wake(w);
                }
                PollOutcome::Ready
            }
            _ => unreachable!(),
        }
    };
    assert_eq!(update(&mut core, 0, &mut play), vec![0]);
    assert_eq!(update(&mut core, 1, &mut play), vec![1]);
    assert_eq!(update(&mut core, 2, &mut play), vec![0]);
    drop(play);
    assert_eq!(got, Some(42));
    assert!(main_join.is_ready(&main_slot));
    match &core.mode {
        EventLoopMode::SingleThreaded { worker, .. } => assert!(worker.tasks.is_empty()),
        _ => panic!("expected the single-threaded mode"),
    }
}

#[test]
fn thread_return_type_unit() {
    let mut core: Core = EventLoop::new(1);
    let (main_join, mut main_slot): (JoinHandle, ThreadResult<(), u64>) = spawn(core.handle_mut(0), 0);
    let mut child: Option<(JoinHandle, ThreadResult<(), u64>)> = None;
    let mut sleep: Option<SleepFuture> = None;
    let mut got: Option<()> = None;
    let mut clock: u64 = 0;
    let mut rounds = 0;
    while !main_join.is_ready(&main_slot) {
        let now = clock;
        for w in core.fire_timers(now) {
            core.wake(w);
        }
        core.dispatch();
        let mut action = core.poll_step(PoolEvent::Start);
        while let PoolAction::Poll(id) = action {
            let outcome = match id {
                0 => {
                    if child.is_none() {
                        child = Some(spawn(core.handle_mut(0), 1));
                    }
                    let (join, slot) = child.as_mut().unwrap();
                    match join.poll(slot, 0) {
                        Some(v) => {
                            got = Some(v);
                            main_slot.complete(());
                            PollOutcome::Ready
                        }
                        None => PollOutcome::Pending,
                    }
                }
                1 => {
                    let s = sleep.get_or_insert_with(|| SleepFuture::new(now, 1_000_000));
                    let decision = s.poll(now, 1);
                    if let Some(timer) = decision.timer {
                        core.handle_mut(0).add_timer(timer.time, timer.waker);
                    }
                    if decision.ready {
                        let (_, slot) = child.as_mut().unwrap();
                        if let Some(w) = slot.complete(()) {
                            core.wake(w);
                        }
                        PollOutcome::Ready
                    } else {
                        PollOutcome::Pending
                    }
                }
                _ => unreachable!(),
            };
            action = core.poll_step(PoolEvent::Polled(outcome));
        }
        core.finish_update();
        clock += 400_000;
        rounds += 1;
        assert!(rounds < 20, "the main task never finished");
    }
    assert_eq!(got, Some(()));
    assert!(core.timers.is_empty());
}

#[test]
fn thread_return_type_unit_multi_thread() {
    let mut core: Core = EventLoop::new(2);
    let (main_join, mut main_slot): (JoinHandle, ThreadResult<(), u64>) = spawn(core.handle_mut(2), 0);
    let (mut child_join, mut child_slot): (JoinHandle, ThreadResult<(), u64>) = (JoinHandle::new(), ThreadResult::new());
    let mut sleep: Option<SleepFuture> = None;
    let mut child_spawned = false;
    let mut got: Option<()> = None;
    let mut clock: u64 = 0;
    let mut rounds = 0;
    while !main_join.is_ready(&main_slot) {
        let now = clock;
        for w in core.fire_timers(now) {
            core.wake(w);
        }
        let plan = core.dispatch();
        assert!(plan.dropped.is_empty());
        // each worker polls the task it was handed, then reports back
        for (worker, id) in plan.assignments {
            let outcome = match id {
                0 => {
                    if !child_spawned {
                        let (j, s) = spawn(core.handle_mut(worker), 1);
                        child_join = j;
                        child_slot = s;
                        child_spawned = true;
                    }
                    match child_join.poll(&mut child_slot, 0) {
                        Some(v) => {
                            got = Some(v);
                            main_slot.complete(());
                            PollOutcome::Ready
                        }
                        None => PollOutcome::Pending,
                    }
                }
                1 => {
                    let s = sleep.get_or_insert_with(|| SleepFuture::new(now, 1_000_000));
                    let decision = s.poll(now, 1);
                    if let Some(timer) = decision.timer {
                        core.handle_mut(worker).add_timer(timer.time, timer.waker);
                    }
                    if decision.ready {
                        if let Some(w) = child_slot.complete(()) {
                            core.wake(w);
                        }
                        PollOutcome::Ready
                    } else {
                        PollOutcome::Pending
                    }
                }
                _ => unreachable!(),
            };
            match &mut core.mode {
                EventLoopMode::MultiThreaded { worker_pool, .. } => worker_pool.finish_poll(worker, outcome),
                _ => panic!("expected the multi-threaded mode"),
            }
        }
        core.finish_update();
        clock += 400_000;
        rounds += 1;
        assert!(rounds < 20, "the main task never finished");
    }
    assert_eq!(got, Some(()));
    assert!(!child_join.is_ready(&child_slot));
}
