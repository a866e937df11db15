//! A fixed-but-resizable worker pool, modelled as a verified state machine.
//!
//! The pool accepts deferred jobs, runs each exactly once on one of a bounded
//! set of background workers, lets a caller change the worker target at
//! runtime, and lets a caller block until no job is queued or running.  The
//! synchronized bookkeeping that all of those operations agree on — the
//! counters, the worker roster, and every transition they may take — lives
//! here and is verified.  The embedding program supplies the operating-system
//! pieces the bookkeeping coordinates: the execution threads, the channel the
//! jobs travel through, and the condition variable that wakes waiters.

pub mod pool;
pub mod shared;
