//! The bookkeeping core of a small single- and multi-threaded async runtime:
//! task signals, scheduling pools, the event loop's timers and task queues,
//! the join-result slot of spawned tasks, the waiter queue of the async
//! mutex, sleep deadlines and the arguments of the entry-point attributes.
//!
//! Futures, wakers and threads stay with the host that drives this core: the
//! core only decides what to poll, whom to wake and what to keep.
pub mod signal;
pub mod vec_ext;
pub mod task;
pub mod thread;
pub mod sleep;
pub mod event_loop;
pub mod mutex;
pub mod thread_pool;
pub mod args;
