//! Laws of the scheduler, stated over the pending-map model and the
//! evaluation predicate `action_ok` that every storage implementation's
//! `next_action` is proved to satisfy. Each law therefore holds of any
//! storage behind the trait, and of the worker step built on it.

use vstd::prelude::*;

use crate::timer::{action_ok, is_due, wait_ok, TimerAction, WAIT_CEILING_MS};

verus! {

/// The wait is a function of the pending map and the instant alone: any two
/// evaluations of the same state that do not fire agree on the wait, so
/// interchangeable storage strategies report identical waits.
pub proof fn lemma_wait_determined<T>(p: Map<T, u64>, now: u64, d1: u32, d2: u32)
    requires
        wait_ok(p, now, d1),
        wait_ok(p, now, d2),
    ensures
        d1 == d2,
{
    if d1 != WAIT_CEILING_MS {
        let j = choose|j: T| p.dom().contains(j) && p[j] - now == d1;
        assert(p[j] - now >= d2);
    }
    if d2 != WAIT_CEILING_MS {
        let j = choose|j: T| p.dom().contains(j) && p[j] - now == d2;
        assert(p[j] - now >= d1);
    }
}

/// Starting a timer never makes it immediately due: an evaluation right
/// after `set(k, now + t)` with `t > 0`, at the same instant, cannot fire
/// `k`.
pub proof fn lemma_start_not_triggered<T>(
    p: Map<T, u64>,
    k: T,
    t: u64,
    now: u64,
    r: TimerAction<T>,
    p2: Map<T, u64>,
)
    requires
        0 < t,
        now + t <= u64::MAX,
        action_ok(p.insert(k, (now + t) as u64), now, r, p2),
    ensures
        r != TimerAction::<T>::Trigger(k),
{
}

/// On a fresh scheduler, starting `k` with timeout `t > 0` and evaluating
/// immediately yields a wait, positive and no longer than `t` itself.
pub proof fn lemma_start_then_wait<T>(
    k: T,
    t: u64,
    now: u64,
    r: TimerAction<T>,
    p2: Map<T, u64>,
)
    requires
        0 < t,
        now + t <= u64::MAX,
        action_ok(Map::<T, u64>::empty().insert(k, (now + t) as u64), now, r, p2),
    ensures
        r is Wait,
        0 < r->Wait_0 <= t,
{
    let p = Map::<T, u64>::empty().insert(k, (now + t) as u64);
    match r {
        TimerAction::Trigger(j) => {
            assert(is_due(p, j, now));
            assert(j == k);
            assert(false);
        },
        TimerAction::Wait(d) => {
            assert(p.dom().contains(k));
            assert(p[k] - now == t);
            if d != WAIT_CEILING_MS {
                let j = choose|j: T| p.dom().contains(j) && p[j] - now == d;
                assert(j == k);
            }
        },
    }
}

/// Stopping a timer before it fires prevents the trigger: after
/// `clear(k)`, no evaluation fires `k`.
pub proof fn lemma_stop_prevents_trigger<T>(
    p: Map<T, u64>,
    k: T,
    now: u64,
    r: TimerAction<T>,
    p2: Map<T, u64>,
)
    requires
        action_ok(p.remove(k), now, r, p2),
    ensures
        r != TimerAction::<T>::Trigger(k),
{
}

/// Stopping is idempotent, and stopping a key never started changes
/// nothing: the pending map is observably the same.
pub proof fn lemma_stop_idempotent<T>(p: Map<T, u64>, k: T)
    ensures
        p.remove(k).remove(k) == p.remove(k),
        !p.dom().contains(k) ==> p.remove(k) == p,
{
    assert(p.remove(k).remove(k) =~= p.remove(k));
    if !p.dom().contains(k) {
        assert(p.remove(k) =~= p);
    }
}

/// A second start for the same key overwrites the first: the pending map
/// is as if only the second start happened, and the key is due exactly
/// when the second deadline has been reached.
pub proof fn lemma_start_overwrites<T>(p: Map<T, u64>, k: T, d1: u64, d2: u64, now: u64)
    ensures
        p.insert(k, d1).insert(k, d2) == p.insert(k, d2),
        is_due(p.insert(k, d1).insert(k, d2), k, now) <==> d2 <= now,
{
    assert(p.insert(k, d1).insert(k, d2) =~= p.insert(k, d2));
}

/// Earliest first: when exactly one key is due — as when the earliest of
/// several distinct deadlines has just been reached — the evaluation fires
/// that key and no other.
pub proof fn lemma_earliest_first<T>(
    p: Map<T, u64>,
    b: T,
    now: u64,
    r: TimerAction<T>,
    p2: Map<T, u64>,
)
    requires
        action_ok(p, now, r, p2),
        is_due(p, b, now),
        forall|j: T| is_due(p, j, now) ==> j == b,
    ensures
        r == TimerAction::<T>::Trigger(b),
{
    match r {
        TimerAction::Trigger(j) => {
            assert(is_due(p, j, now));
        },
        TimerAction::Wait(d) => {
            assert(p[b] > now);
            assert(false);
        },
    }
}

/// No double fire: once an evaluation returns `Trigger(k)`, an immediately
/// following evaluation at the same instant, with no new start in between,
/// cannot return `Trigger(k)` again.
pub proof fn lemma_no_double_fire<T>(
    p: Map<T, u64>,
    k: T,
    now: u64,
    p2: Map<T, u64>,
    r2: TimerAction<T>,
    p3: Map<T, u64>,
)
    requires
        action_ok(p, now, TimerAction::Trigger(k), p2),
        action_ok(p2, now, r2, p3),
    ensures
        r2 != TimerAction::<T>::Trigger(k),
{
}

/// Ceiling: with nothing pending, an evaluation asks for exactly the
/// ceiling wait, never an unbounded one.
pub proof fn lemma_wait_ceiling<T>(now: u64, r: TimerAction<T>, p2: Map<T, u64>)
    requires
        action_ok(Map::<T, u64>::empty(), now, r, p2),
    ensures
        r == TimerAction::<T>::Wait(WAIT_CEILING_MS),
{
    match r {
        TimerAction::Trigger(j) => {
            assert(is_due(Map::<T, u64>::empty(), j, now));
        },
        TimerAction::Wait(d) => {
            if d != WAIT_CEILING_MS {
                let j = choose|j: T|
                    Map::<T, u64>::empty().dom().contains(j) && Map::<T, u64>::empty()[j] - now
                        == d;
                assert(Map::<T, u64>::empty().dom().contains(j));
            }
        },
    }
}

} // verus!
