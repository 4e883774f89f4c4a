//! Timer actions, the producer request protocol, and the worker's decision
//! step, together with the specification predicates that pin down what an
//! evaluation of the pending deadlines must produce.

use vstd::prelude::*;

use crate::storage::TimerStorage;

verus! {

/// Upper bound, in milliseconds, on any wait the scheduler asks for: even
/// with nothing pending the worker re-evaluates at least this often.
pub const WAIT_CEILING_MS: u32 = 60_000;

/// What the worker should do right now: fire the callback for a key that is
/// due, or sleep at most the given number of milliseconds before asking again.
#[derive(Debug)]
pub enum TimerAction<T> {
    Trigger(T),
    Wait(u32),
}

/// A producer's request as it travels to the worker: schedule a key to fire
/// at an absolute deadline (milliseconds on the monotonic clock), or cancel
/// whatever was scheduled for it.
#[derive(Debug)]
pub enum TimerRequest<T> {
    Start(T, u64),
    Stop(T),
}

/// The key `k` has a pending deadline that has been reached at `now`.
pub open spec fn is_due<T>(pending: Map<T, u64>, k: T, now: u64) -> bool {
    pending.dom().contains(k) && pending[k] <= now
}

/// No pending deadline has been reached at `now`.
pub open spec fn none_due<T>(pending: Map<T, u64>, now: u64) -> bool {
    forall|k: T| pending.dom().contains(k) ==> pending[k] > now
}

/// `d` is exactly the time to the earliest pending deadline, capped at the
/// ceiling; with nothing pending it is the ceiling itself.
pub open spec fn wait_ok<T>(pending: Map<T, u64>, now: u64, d: u32) -> bool {
    &&& d <= WAIT_CEILING_MS
    &&& forall|k: T| pending.dom().contains(k) ==> pending[k] - now >= d
    &&& (d == WAIT_CEILING_MS || exists|k: T|
        pending.dom().contains(k) && pending[k] - now == d)
}

/// Everything an evaluation promises, relating the pending map before
/// (`p`), the instant `now`, the action returned, and the pending map after
/// (`p2`): a trigger names a due key and clears exactly that key, so the
/// same key cannot fire twice for one deadline; a wait means nothing is due,
/// leaves the map unchanged, and reports the exact capped time to the
/// earliest deadline.
pub open spec fn action_ok<T>(p: Map<T, u64>, now: u64, r: TimerAction<T>, p2: Map<T, u64>) -> bool {
    match r {
        TimerAction::Trigger(k) => is_due(p, k, now) && p2 == p.remove(k),
        TimerAction::Wait(d) => p2 == p && none_due(p, now) && wait_ok(p, now, d),
    }
}

/// What one request does to the pending map: a start overwrites the key's
/// deadline, a stop drops the key.
pub open spec fn apply_request_spec<T>(p: Map<T, u64>, req: TimerRequest<T>) -> Map<T, u64> {
    match req {
        TimerRequest::Start(k, when) => p.insert(k, when),
        TimerRequest::Stop(k) => p.remove(k),
    }
}

/// What a batch of requests does to the pending map, applied in arrival
/// order.
pub open spec fn apply_requests_spec<T>(p: Map<T, u64>, reqs: Seq<TimerRequest<T>>) -> Map<T, u64>
    decreases reqs.len(),
{
    if reqs.len() == 0 {
        p
    } else {
        apply_request_spec(apply_requests_spec(p, reqs.drop_last()), reqs.last())
    }
}

/// Apply one drained request to the storage.
pub fn apply_request<T, S: TimerStorage<T>>(storage: &mut S, req: &TimerRequest<T>)
    requires
        old(storage).wf(),
    ensures
        final(storage).wf(),
        final(storage).pending() == apply_request_spec(old(storage).pending(), *req),
{
    match req {
        TimerRequest::Start(k, when) => storage.set(k, *when),
        TimerRequest::Stop(k) => storage.clear(k),
    }
}

/// Apply a whole drained batch to the storage, in arrival order.
pub fn apply_requests<T, S: TimerStorage<T>>(storage: &mut S, reqs: &Vec<TimerRequest<T>>)
    requires
        old(storage).wf(),
    ensures
        final(storage).wf(),
        final(storage).pending() == apply_requests_spec(old(storage).pending(), reqs@),
{
    let ghost p0 = storage.pending();
    let mut i: usize = 0;
    while i < reqs.len()
        invariant
            i <= reqs.len(),
            storage.wf(),
            storage.pending() == apply_requests_spec(p0, reqs@.take(i as int)),
        decreases reqs.len() - i,
    {
        apply_request(storage, &reqs[i]);
        proof {
            assert(reqs@.take(i + 1 as int).drop_last() =~= reqs@.take(i as int));
            assert(reqs@.take(i + 1 as int).last() == reqs@[i as int]);
        }
        i = i + 1;
    }
    proof {
        assert(reqs@.take(reqs@.len() as int) =~= reqs@);
    }
}

/// One turn of the worker loop's decision: apply every request drained from
/// the channel, then evaluate the storage at `now`. The action returned is
/// exactly what the fully updated pending map calls for — the worker never
/// decides on stale state.
pub fn worker_step<T, S: TimerStorage<T>>(
    storage: &mut S,
    reqs: &Vec<TimerRequest<T>>,
    now: u64,
) -> (r: TimerAction<T>)
    requires
        old(storage).wf(),
    ensures
        final(storage).wf(),
        action_ok(
            apply_requests_spec(old(storage).pending(), reqs@),
            now,
            r,
            final(storage).pending(),
        ),
{
    apply_requests(storage, reqs);
    storage.next_action(now)
}

/// The absolute deadline a timeout of `timeout` milliseconds from `now`
/// stands for.
pub fn deadline_for(now: u64, timeout: u32) -> (r: u64)
    requires
        now + timeout <= u64::MAX,
    ensures
        r == now + timeout,
{
    now + timeout as u64
}

} // verus!
