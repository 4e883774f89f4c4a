//! A per-key deadline scheduler core.
//!
//! Callers register or cancel a timeout for a discrete key; a storage
//! structure tracks, per key, an optional absolute deadline (a monotonic
//! timestamp in milliseconds) and decides at each evaluation instant whether
//! a key is due to fire or how long the worker may sleep before asking
//! again. The worker's decision step and two interchangeable storage
//! strategies are verified against one contract.

mod laws;
mod slots;
mod storage;
mod timer;

pub use laws::{
    lemma_wait_determined,
    lemma_earliest_first, lemma_no_double_fire, lemma_start_not_triggered, lemma_start_overwrites,
    lemma_start_then_wait, lemma_stop_idempotent, lemma_stop_prevents_trigger, lemma_wait_ceiling,
};
pub use slots::{GEvent, GEventStorage};
pub use storage::{TimerEvent, TimerKey, TimerStorage};
pub use timer::{TimerAction, TimerRequest};
pub use timer::{apply_request, apply_requests, deadline_for, worker_step, WAIT_CEILING_MS};
pub use timer::{action_ok, apply_request_spec, apply_requests_spec, is_due, none_due, wait_ok};
