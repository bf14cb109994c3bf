# async_runtime

A small async runtime whose scheduling core is verified with Verus.

- `src/` is the verified core. It keeps the records of tasks (`task`,
  `signal`), the event loop's timers and queues (`event_loop`), the
  single- and multi-threaded worker pools (`thread_pool`), the slot through
  which a task hands its output to its join handle (`thread`), the waiter
  queue of the async mutex (`mutex`), sleep deadlines (`sleep`), the
  `retain_filter` extension of `Vec` (`vec_ext`) and the arguments of the
  entry-point attributes (`args`). It decides what to poll, whom to wake and
  what to keep; it never polls a future itself.
- `app/` drives the core: it holds the futures, builds the wakers, runs the
  worker threads, reads the clock, and expands the `main` and `test`
  attributes over `proc_macro2` token streams.
- `tests/` exercises the core, including the runtime's scenarios played
  step by step.
