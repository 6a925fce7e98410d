# rwlock

A reader-writer lock with a choice of preference (readers or writers) and of
wake-up order for waiting writers (FIFO or LIFO), and a small command shell
(`rush`) with built-ins, pipes, redirection and background jobs.

## Layout

- `src/` — the verified library.
  - `policy.rs`: `Preference` and `Order`.
  - `state.rs`: the lock's bookkeeping as mathematics (`LockState`), its
    invariant, the transition of each request and release, and the proofs that
    every transition keeps the invariant.
  - `lock.rs`: `RwLock<T>`, the executable lock: requests give the lock at once
    or a ticket to wait under; releases hand the lock over and say whom to wake.
  - `laws.rs`: mutual exclusion, no waiting on a free lock, FIFO/LIFO wake-up,
    hand-over on release, and safety of every sequence of events.
  - `text.rs`, `command.rs`, `jobs.rs`, `shell.rs`: the shell's decisions —
    splitting a line into words, parsing a command line, the job table, the
    history listing, and what each line asks the shell to do.
- `app/` — the parts that need threads and the operating system: the shell's
  read-eval loop (fork, exec, pipes, redirection, `waitpid`, `kill` through
  `libc`) and a thread-safe lock built from a mutex, condition variables and an
  `UnsafeCell` around the library's `RwLock`.
- `tests/` — tests of the library on concrete values.
