use async_runtime::args::{
    check_entry, get_thread_count, main_args_from, parse_args, try_get_thread_count, ArgToken, ArgsError, EntryError,
    EntryKind, MainArgs,
};
use async_runtime::event_loop::{EventLoop, EventLoopHandle, EventLoopMode};
use async_runtime::mutex::{LockFuture, Mutex, WakerQueue};
use async_runtime::signal::{Signal, SignalState};
use async_runtime::sleep::SleepFuture;
use async_runtime::task::{PollOutcome, Task};
use async_runtime::thread::{spawn, JoinHandle, ThreadResult};
use async_runtime::thread_pool::{MultiThreadedPool, PoolAction, PoolEvent, SingleThreadedPool};
use async_runtime::vec_ext::VecExt;

fn states(tasks: &[Task]) -> Vec<(u64, SignalState)> {
    tasks.iter().map(|t| (t.id, t.signal.state)).collect()
}

#[test]
fn signal_transitions() {
    let mut s = Signal::new();
    assert_eq!(s.state, SignalState::Awaked);
    s.pause();
    assert_eq!(s.state, SignalState::Waiting);
    s.wake_by_ref();
    assert_eq!(s.state, SignalState::Awaked);
    s.pause();
    s.wake();
    assert_eq!(s.state, SignalState::Awaked);
    s.ready();
    assert_eq!(s.state, SignalState::Ready);
    s.notify();
    assert_eq!(s.state, SignalState::Awaked);
}

#[test]
fn retain_filter_moves_accepted_elements_out() {
    let mut v = vec![1, 2, 3, 4, 5, 6];
    let evens = v.retain_filter(|x: &i32| *x % 2 == 0);
    assert_eq!(evens, vec![6, 4, 2]);
    assert_eq!(v, vec![1, 5, 3]);
}

#[test]
fn retain_filter_edge_cases() {
    let mut empty: Vec<u8> = Vec::new();
    assert!(empty.retain_filter(|_: &u8| true).is_empty());
    assert!(empty.is_empty());

    let mut all = vec![1, 2, 3];
    assert_eq!(all.retain_filter(|_: &i32| true), vec![3, 2, 1]);
    assert!(all.is_empty());

    let mut none = vec![1, 2, 3];
    assert!(none.retain_filter(|_: &i32| false).is_empty());
    assert_eq!(none, vec![1, 2, 3]);

    // removing the first element moves the last kept one into its place
    let mut v = vec![10, 11, 12, 13];
    assert_eq!(v.retain_filter(|x: &i32| *x == 10), vec![10]);
    assert_eq!(v, vec![13, 11, 12]);
}

#[test]
fn task_poll_records_outcome() {
    let mut t = Task::new(7);
    assert_eq!((t.id, t.signal.state), (7, SignalState::Awaked));
    t.poll(PollOutcome::Pending);
    assert_eq!(t.signal.state, SignalState::Waiting);
    t.poll(PollOutcome::Ready);
    assert_eq!((t.id, t.signal.state), (7, SignalState::Ready));
}

#[test]
fn join_handle_gets_output_once() {
    let mut handle: EventLoopHandle<&str> = EventLoopHandle::new();
    let (mut join, mut slot): (JoinHandle, ThreadResult<u32, &str>) = spawn(&mut handle, 3);
    assert_eq!(handle.queues.tasks.len(), 1);
    assert_eq!(handle.queues.tasks[0].id, 3);
    assert!(!join.is_ready(&slot));
    assert_eq!(join.poll(&mut slot, "joiner"), None);
    assert!(join.has_registered);
    assert_eq!(slot.waker, Some("joiner"));
    // a second poll keeps the first registration
    assert_eq!(join.poll(&mut slot, "other"), None);
    assert_eq!(slot.waker, Some("joiner"));
    assert_eq!(slot.complete(42), Some("joiner"));
    assert!(join.is_ready(&slot));
    assert_eq!(join.poll(&mut slot, "joiner"), Some(42));
    assert!(!join.is_ready(&slot));
    assert_eq!(join.poll(&mut slot, "joiner"), None);
}

#[test]
fn thread_result_default_is_empty() {
    let r: ThreadResult<(), u8> = Default::default();
    assert!(r.inner.is_none() && r.waker.is_none());
    let mut r2: ThreadResult<(), u8> = ThreadResult::new();
    assert_eq!(r2.complete(()), None);
    assert_eq!(r2.inner, Some(()));
}

#[test]
fn sleep_registers_one_timer() {
    let mut s = SleepFuture::new(100, 50);
    assert_eq!(s.completion_time, 150);
    let first = s.poll(120, 'a');
    assert!(!first.ready);
    let timer = first.timer.unwrap();
    assert_eq!((timer.time, timer.waker), (150, 'a'));
    let second = s.poll(149, 'a');
    assert!(second.timer.is_none() && !second.ready);
    let third = s.poll(150, 'a');
    assert!(third.timer.is_none() && third.ready);
    assert!(s.poll(1000, 'a').ready);
}

#[test]
fn mutex_grants_in_order() {
    let mut m: Mutex<u32, &str> = Mutex::new(5);
    let mut a = LockFuture::new();
    let mut b = LockFuture::new();
    let ga = m.poll_lock(&mut a, "a").expect("first waiter takes the lock");
    assert_eq!(ga.id, 0);
    assert!(m.poll_lock(&mut b, "b").is_none());
    assert_eq!(b.id, Some(1));
    assert!(m.poll_lock(&mut b, "b").is_none());
    *m.get_mut() += 1;
    assert_eq!(m.inner, 6);
    // releasing hands the next waiter back to be woken, and takes it off the queue
    assert_eq!(m.unlock(ga), Some("b"));
    assert!(m.queue.buf.is_empty());
    assert_eq!(m.queue.next_id, 2);
}

#[test]
fn mutex_unlock_alone_wakes_nobody() {
    let mut m: Mutex<(), u8> = Mutex::new(());
    let mut a = LockFuture::new();
    let g = m.poll_lock(&mut a, 1).unwrap();
    assert_eq!(m.unlock(g), None);
    assert!(m.queue.buf.is_empty());
    let mut q: WakerQueue<u8> = WakerQueue::new();
    let mut c = LockFuture::new();
    assert!(c.poll(&mut q, 9));
    assert_eq!(c.id, Some(0));
}

#[test]
fn mutex_three_waiters_release_skips_one() {
    let mut m: Mutex<(), char> = Mutex::new(());
    let (mut a, mut b, mut c) = (LockFuture::new(), LockFuture::new(), LockFuture::new());
    let g = m.poll_lock(&mut a, 'a').unwrap();
    assert!(m.poll_lock(&mut b, 'b').is_none());
    assert!(m.poll_lock(&mut c, 'c').is_none());
    assert_eq!(m.unlock(g), Some('b'));
    assert_eq!(m.queue.buf.len(), 1);
    assert_eq!(m.queue.buf[0].1, 2);
    // the third waiter now finds its ticket at the front
    assert!(m.poll_lock(&mut c, 'c').is_some());
}

#[test]
fn single_threaded_pool_round() {
    let mut pool = SingleThreadedPool::new();
    let mut waiting = Task::new(2);
    waiting.signal.pause();
    pool.add_tasks(vec![Task::new(1), waiting, Task::new(3)]);
    assert_eq!(pool.update(PoolEvent::Start), PoolAction::Poll(1));
    assert_eq!(pool.update(PoolEvent::Polled(PollOutcome::Ready)), PoolAction::Poll(3));
    assert_eq!(pool.update(PoolEvent::Polled(PollOutcome::Pending)), PoolAction::Done);
    assert_eq!(pool.current, None);
    assert_eq!(
        states(&pool.tasks),
        vec![(2, SignalState::Waiting), (3, SignalState::Waiting)]
    );
    assert_eq!(pool.update(PoolEvent::Start), PoolAction::Done);
}

#[test]
fn multi_threaded_pool_drops_tasks_beyond_free_workers() {
    let (mut pool, handles): (MultiThreadedPool, Vec<EventLoopHandle<u8>>) = MultiThreadedPool::new(2);
    assert_eq!(handles.len(), 2);
    assert!(handles.iter().all(|h| h.queues.tasks.is_empty() && h.queues.timers.is_empty()));
    pool.add_tasks(vec![Task::new(1), Task::new(2), Task::new(3)]);
    let plan = pool.update();
    assert_eq!(plan.assignments, vec![(0, 1), (1, 2)]);
    assert_eq!(plan.dropped, vec![3]);
    assert!(pool.tasks.is_empty());
    assert_eq!(pool.available, vec![false, false]);
    pool.finish_poll(1, PollOutcome::Pending);
    assert_eq!(pool.available, vec![false, true]);
    assert_eq!(states(&pool.returned), vec![(2, SignalState::Waiting)]);
    pool.finish_poll(0, PollOutcome::Ready);
    assert!(pool.running.is_empty());
    assert_eq!(pool.returned.len(), 1);
    // a worker with nothing to finish leaves the pool as it is
    pool.finish_poll(0, PollOutcome::Ready);
    assert_eq!(pool.available, vec![true, true]);
    let plan = pool.update();
    assert!(plan.assignments.is_empty() && plan.dropped.is_empty());
    assert_eq!(states(&pool.tasks), vec![(2, SignalState::Waiting)]);
}

#[test]
fn multi_threaded_pool_enough_workers() {
    let (mut pool, _handles): (MultiThreadedPool, Vec<EventLoopHandle<u8>>) = MultiThreadedPool::new(3);
    pool.available[0] = false;
    let mut w = Task::new(9);
    w.signal.pause();
    pool.add_tasks(vec![Task::new(1), w, Task::new(2)]);
    let plan = pool.update();
    // due tasks come out of the queue last first, and are popped again
    assert_eq!(plan.assignments, vec![(1, 1), (2, 2)]);
    assert!(plan.dropped.is_empty());
    assert_eq!(states(&pool.tasks), vec![(9, SignalState::Waiting)]);
    assert_eq!(pool.available, vec![false, false, false]);
}

#[test]
fn event_loop_single_threaded_update() {
    let mut el: EventLoop<u64> = EventLoop::new(1);
    assert!(matches!(el.mode, EventLoopMode::SingleThreaded { .. }));
    el.handle_mut(0).spawn(1);
    el.handle_mut(0).spawn(2);
    el.handle_mut(0).add_timer(10, 1);
    assert!(el.fire_timers(0).is_empty());
    let plan = el.dispatch();
    assert!(plan.assignments.is_empty() && plan.dropped.is_empty());
    assert!(el.tasks.is_empty());
    assert_eq!(el.timers.len(), 1);
    // due tasks reach the worker last first
    assert_eq!(el.poll_step(PoolEvent::Start), PoolAction::Poll(2));
    // task 2 finishes and wakes nobody
    assert_eq!(el.poll_step(PoolEvent::Polled(PollOutcome::Ready)), PoolAction::Poll(1));
    assert_eq!(el.poll_step(PoolEvent::Polled(PollOutcome::Pending)), PoolAction::Done);
    el.finish_update();
    // the timer fires at 10 and wakes task 1
    assert!(el.fire_timers(9).is_empty());
    let fired = el.fire_timers(10);
    assert_eq!(fired, vec![1]);
    assert!(el.timers.is_empty());
    for id in fired {
        el.wake(id);
    }
    el.dispatch();
    assert_eq!(el.poll_step(PoolEvent::Start), PoolAction::Poll(1));
    assert_eq!(el.poll_step(PoolEvent::Polled(PollOutcome::Ready)), PoolAction::Done);
    el.finish_update();
    match &el.mode {
        EventLoopMode::SingleThreaded { worker, .. } => assert!(worker.tasks.is_empty()),
        _ => panic!("expected the single-threaded mode"),
    }
}

#[test]
fn event_loop_fires_due_timers_in_order() {
    let mut el: EventLoop<char> = EventLoop::new(1);
    el.handle_mut(0).add_timer(5, 'a');
    el.handle_mut(0).add_timer(30, 'b');
    el.handle_mut(0).add_timer(1, 'c');
    el.handle_mut(0).add_timer(20, 'd');
    el.dispatch();
    assert_eq!(el.fire_timers(20), vec!['a', 'c', 'd']);
    assert_eq!(el.timers.len(), 1);
    assert_eq!((el.timers[0].time, el.timers[0].waker), (30, 'b'));
}

#[test]
fn event_loop_wake_reaches_every_place() {
    let mut el: EventLoop<u8> = EventLoop::new(4);
    el.handle_mut(4).spawn(1);
    el.dispatch();
    el.handle_mut(4).spawn(1);
    el.handle_mut(4).queues.tasks[0].signal.pause();
    el.tasks.push(Task::new(2));
    el.tasks[0].signal.pause();
    el.wake(1);
    assert_eq!(el.handle_mut(4).queues.tasks[0].signal.state, SignalState::Awaked);
    assert_eq!(el.tasks[0].signal.state, SignalState::Waiting);
    match &el.mode {
        EventLoopMode::MultiThreaded { worker_pool, .. } => {
            assert_eq!(worker_pool.running.len(), 1);
            assert_eq!(worker_pool.running[0].1.signal.state, SignalState::Awaked);
        }
        _ => panic!("expected the multi-threaded mode"),
    }
}

#[test]
fn event_loop_multi_threaded_dispatch() {
    let mut el: EventLoop<u8> = EventLoop::new(2);
    for id in 1..=3 {
        el.handle_mut(2).spawn(id);
    }
    let plan = el.dispatch();
    // the loop and then the pool each take the due tasks out last first
    assert_eq!(plan.assignments, vec![(0, 3), (1, 2)]);
    assert_eq!(plan.dropped, vec![1]);
    assert_eq!(el.poll_step(PoolEvent::Start), PoolAction::Done);
    let mut finished = Task::new(4);
    finished.signal.ready();
    el.tasks.push(finished);
    el.tasks.push(Task::new(5));
    el.finish_update();
    assert_eq!(states(&el.tasks), vec![(5, SignalState::Awaked)]);
}

#[test]
fn event_loop_drains_worker_handles_before_its_own() {
    let mut el: EventLoop<u8> = EventLoop::new(2);
    // handles 0 and 1 belong to the workers, handle 2 to the loop itself
    el.handle_mut(2).spawn(5);
    el.handle_mut(0).spawn(6);
    el.handle_mut(1).add_timer(3, 1);
    el.handle_mut(2).add_timer(2, 2);
    let plan = el.dispatch();
    assert_eq!(plan.assignments, vec![(0, 5), (1, 6)]);
    assert!(plan.dropped.is_empty());
    assert_eq!(el.timers.iter().map(|t| t.time).collect::<Vec<_>>(), vec![3, 2]);
    for i in 0..3 {
        assert!(el.handle_mut(i).queues.tasks.is_empty() && el.handle_mut(i).queues.timers.is_empty());
    }
}

fn tokens(text: &[ArgToken]) -> Vec<ArgToken> {
    text.to_vec()
}

fn ident(s: &str) -> ArgToken {
    ArgToken::Ident(s.to_string())
}

fn lit(s: &str) -> ArgToken {
    ArgToken::Literal(s.to_string())
}

#[test]
fn main_args_thread_count() {
    let t = tokens(&[ident("thread_count"), ArgToken::Punct('='), lit("4")]);
    assert_eq!(MainArgs::parse(&t), Ok((MainArgs { thread_count: 4 }, 3)));
    assert_eq!(parse_args(&t), Ok(MainArgs { thread_count: 4 }));
    assert_eq!(get_thread_count(&t), 4);
    assert_eq!(MainArgs::parse(&Vec::new()), Ok((MainArgs { thread_count: 1 }, 0)));
    assert_eq!(parse_args(&Vec::new()), Ok(MainArgs { thread_count: 1 }));
    assert_eq!(get_thread_count(&Vec::new()), 1);
    let t = tokens(&[ident("thread_count"), ArgToken::Punct('='), lit("1_000usize")]);
    assert_eq!(try_get_thread_count(&t), Some(1000));
    let t = tokens(&[ident("thread_count"), ArgToken::Punct('='), lit("0x10")]);
    assert_eq!(try_get_thread_count(&t), Some(16));
}

#[test]
fn main_args_prefix_reads_only_what_it_needs() {
    let eq = ArgToken::Punct('=');
    // a stream that does not start with an identifier reads nothing
    assert_eq!(MainArgs::parse(&tokens(&[lit("2")])), Ok((MainArgs { thread_count: 1 }, 0)));
    assert_eq!(MainArgs::parse(&tokens(&[ArgToken::Group])), Ok((MainArgs { thread_count: 1 }, 0)));
    // a keyword is no identifier
    assert_eq!(
        MainArgs::parse(&tokens(&[ident("fn"), eq.clone(), lit("2")])),
        Ok((MainArgs { thread_count: 1 }, 0))
    );
    assert_eq!(MainArgs::parse(&tokens(&[ident("_")])), Ok((MainArgs { thread_count: 1 }, 0)));
    // tokens after the arguments are left unread
    let t = tokens(&[ident("thread_count"), eq, lit("2"), ArgToken::Group]);
    assert_eq!(MainArgs::parse(&t), Ok((MainArgs { thread_count: 2 }, 3)));
    // the whole stream is refused for them
    assert_eq!(parse_args(&t), Err(ArgsError::UnexpectedToken));
    assert_eq!(parse_args(&tokens(&[lit("2")])), Err(ArgsError::UnexpectedToken));
    assert_eq!(parse_args(&tokens(&[ident("fn")])), Err(ArgsError::UnexpectedToken));
    assert_eq!(try_get_thread_count(&t), None);
}

#[test]
fn main_args_from_given_answers() {
    let eq = ArgToken::Punct('=');
    let t = tokens(&[ident("thread_count"), eq.clone(), lit("anything")]);
    assert_eq!(main_args_from(&t, true, Some(4)), Ok((MainArgs { thread_count: 4 }, 3)));
    assert_eq!(main_args_from(&t, true, None), Err(ArgsError::InvalidInteger));
    assert_eq!(main_args_from(&t, false, Some(4)), Ok((MainArgs { thread_count: 1 }, 0)));
    let t = tokens(&[ident("threads"), eq.clone(), lit("4")]);
    assert_eq!(main_args_from(&t, true, Some(4)), Err(ArgsError::UnknownArgument));
    let t = tokens(&[lit("4"), eq, lit("4")]);
    assert_eq!(main_args_from(&t, true, Some(4)), Ok((MainArgs { thread_count: 1 }, 0)));
    assert_eq!(main_args_from(&Vec::new(), true, Some(4)), Ok((MainArgs { thread_count: 1 }, 0)));
}

#[test]
fn main_args_refused() {
    let eq = ArgToken::Punct('=');
    assert_eq!(
        MainArgs::parse(&tokens(&[ident("threads"), eq.clone(), lit("2")])),
        Err(ArgsError::UnknownArgument)
    );
    assert_eq!(
        MainArgs::parse(&tokens(&[ident("thread_count"), lit("2")])),
        Err(ArgsError::ExpectedEquals)
    );
    assert_eq!(
        MainArgs::parse(&tokens(&[ident("thread_count")])),
        Err(ArgsError::ExpectedEquals)
    );
    assert_eq!(
        MainArgs::parse(&tokens(&[ident("thread_count"), eq.clone(), ident("two")])),
        Err(ArgsError::ExpectedInteger)
    );
    assert_eq!(
        MainArgs::parse(&tokens(&[ident("thread_count"), eq.clone()])),
        Err(ArgsError::ExpectedInteger)
    );
    assert_eq!(
        MainArgs::parse(&tokens(&[ident("thread_count"), eq.clone(), lit("\"2\"")])),
        Err(ArgsError::InvalidInteger)
    );
    assert_eq!(
        parse_args(&tokens(&[ident("thread_count"), eq.clone(), lit("99999999999999999999999")])),
        Err(ArgsError::InvalidInteger)
    );
    let zero = tokens(&[ident("thread_count"), eq, lit("0")]);
    assert_eq!(parse_args(&zero), Ok(MainArgs { thread_count: 0 }));
    assert_eq!(try_get_thread_count(&zero), None);
}

#[test]
fn entry_point_checks() {
    let main = "main".to_string();
    let other = "start".to_string();
    assert_eq!(check_entry(EntryKind::Main, &main, true), Ok(()));
    assert_eq!(check_entry(EntryKind::Main, &other, true), Err(EntryError::NotMain));
    assert_eq!(check_entry(EntryKind::Main, &other, false), Err(EntryError::NotMain));
    assert_eq!(check_entry(EntryKind::Main, &main, false), Err(EntryError::NotAsync));
    assert_eq!(check_entry(EntryKind::Test, &other, true), Ok(()));
    assert_eq!(check_entry(EntryKind::Test, &other, false), Err(EntryError::NotAsync));
}
