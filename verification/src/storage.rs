//! The storage abstraction: per key, at most one pending deadline. Every
//! implementation exposes its state as a map from key to deadline and meets
//! the same contract, so implementations are interchangeable behind the
//! trait.

use vstd::prelude::*;

use crate::timer::{action_ok, TimerAction, WAIT_CEILING_MS};

verus! {

/// One pending entry: a key and the absolute deadline (milliseconds on the
/// monotonic clock) at which it fires.
#[derive(Debug)]
pub struct TimerEvent<T> {
    pub variant: T,
    pub when: u64,
}

/// What the scheduler needs of a key: it can be duplicated and compared,
/// and both operations agree with logical equality.
pub trait TimerKey: Sized {
    /// An exact copy of the key.
    fn dup(&self) -> (r: Self)
        ensures
            r == *self,
    ;

    /// Whether two keys are the same key.
    fn eq_key(&self, other: &Self) -> (r: bool)
        ensures
            r == (*self == *other),
    ;
}

impl TimerKey for u64 {
    fn dup(&self) -> (r: u64) {
        *self
    }

    fn eq_key(&self, other: &u64) -> (r: bool) {
        *self == *other
    }
}

/// The storage contract: an authoritative mapping from key to optional
/// deadline, mutated only through these methods. `wf` is the
/// implementation's own invariant; `new` establishes it and every method
/// preserves it, so a storage built by `new` always satisfies it.
pub trait TimerStorage<T>: Sized {
    /// The implementation's internal invariant.
    spec fn wf(&self) -> bool;

    /// The pending entries: which keys have a deadline, and which one.
    spec fn pending(&self) -> Map<T, u64>;

    /// A storage with nothing pending.
    fn new() -> (s: Self)
        ensures
            s.wf(),
            s.pending() == Map::<T, u64>::empty(),
    ;

    /// Remove any pending deadline for the key; a no-op if none exists.
    fn clear(&mut self, variant: &T)
        requires
            old(self).wf(),
        ensures
            final(self).wf(),
            final(self).pending() == old(self).pending().remove(*variant),
    ;

    /// Unconditionally give the key the deadline `when`, replacing any
    /// deadline it had.
    fn set(&mut self, variant: &T, when: u64)
        requires
            old(self).wf(),
        ensures
            final(self).wf(),
            final(self).pending() == old(self).pending().insert(*variant, when),
    ;

    /// Evaluate every pending entry against `now`: fire a due key (clearing
    /// it), or say exactly how long the caller may sleep.
    fn next_action(&mut self, now: u64) -> (r: TimerAction<T>)
        requires
            old(self).wf(),
        ensures
            final(self).wf(),
            action_ok(old(self).pending(), now, r, final(self).pending()),
    ;
}

/// Entries stand in ascending deadline order.
pub open spec fn evs_sorted<T>(s: Seq<TimerEvent<T>>) -> bool {
    forall|i: int, j: int| 0 <= i < j < s.len() ==> s[i].when <= s[j].when
}

/// No key appears in two entries.
pub open spec fn evs_unique<T>(s: Seq<TimerEvent<T>>) -> bool {
    forall|i: int, j: int| 0 <= i < j < s.len() ==> s[i].variant != s[j].variant
}

/// The pending map a list of entries stands for.
pub open spec fn evs_pending<T>(s: Seq<TimerEvent<T>>) -> Map<T, u64>
    decreases s.len(),
{
    if s.len() == 0 {
        Map::empty()
    } else {
        evs_pending(s.drop_last()).insert(s.last().variant, s.last().when)
    }
}

/// Dropping the last entry keeps order and key uniqueness.
proof fn lemma_evs_prefix_wf<T>(s: Seq<TimerEvent<T>>)
    requires
        s.len() > 0,
    ensures
        evs_unique(s) ==> evs_unique(s.drop_last()),
        evs_sorted(s) ==> evs_sorted(s.drop_last()),
{
    if evs_unique(s) {
        assert forall|a: int, b: int| 0 <= a < b < s.drop_last().len() implies s.drop_last()[a].variant
            != s.drop_last()[b].variant by {
            assert(s.drop_last()[a] == s[a]);
            assert(s.drop_last()[b] == s[b]);
        }
    }
    if evs_sorted(s) {
        assert forall|a: int, b: int| 0 <= a < b < s.drop_last().len() implies s.drop_last()[a].when
            <= s.drop_last()[b].when by {
            assert(s.drop_last()[a] == s[a]);
            assert(s.drop_last()[b] == s[b]);
        }
    }
}

/// A key is pending exactly when some entry carries it.
proof fn lemma_evs_pending_dom<T>(s: Seq<TimerEvent<T>>)
    ensures
        forall|k: T| #[trigger] evs_pending(s).dom().contains(k) <==> (exists|i: int|
            0 <= i < s.len() && s[i].variant == k),
    decreases s.len(),
{
    if s.len() > 0 {
        lemma_evs_pending_dom(s.drop_last());
        assert forall|k: T| #[trigger] evs_pending(s).dom().contains(k) implies (exists|i: int|
            0 <= i < s.len() && s[i].variant == k) by {
            if k == s.last().variant {
                assert(s[s.len() - 1].variant == k);
            } else {
                assert(evs_pending(s.drop_last()).dom().contains(k));
                let i = choose|i: int|
                    0 <= i < s.drop_last().len() && s.drop_last()[i].variant == k;
                assert(s[i].variant == k);
            }
        }
        assert forall|k: T| (exists|i: int| 0 <= i < s.len() && s[i].variant == k)
            implies #[trigger] evs_pending(s).dom().contains(k) by {
            let i = choose|i: int| 0 <= i < s.len() && s[i].variant == k;
            if i < s.len() - 1 {
                assert(s.drop_last()[i].variant == k);
                assert(exists|j: int| 0 <= j < s.drop_last().len() && s.drop_last()[j].variant == k);
                assert(evs_pending(s.drop_last()).dom().contains(k));
            }
        }
    }
}

/// With unique keys, the entry at `i` gives its key's pending deadline.
proof fn lemma_evs_pending_at<T>(s: Seq<TimerEvent<T>>, i: int)
    requires
        evs_unique(s),
        0 <= i < s.len(),
    ensures
        evs_pending(s).dom().contains(s[i].variant),
        evs_pending(s)[s[i].variant] == s[i].when,
    decreases s.len(),
{
    if i < s.len() - 1 {
        lemma_evs_prefix_wf(s);
        lemma_evs_pending_at(s.drop_last(), i);
        assert(s.drop_last()[i] == s[i]);
        assert(s[i].variant != s[s.len() - 1].variant);
    }
}

/// A key no entry carries is not pending.
proof fn lemma_evs_pending_absent<T>(s: Seq<TimerEvent<T>>, k: T)
    requires
        forall|i: int| 0 <= i < s.len() ==> s[i].variant != k,
    ensures
        !evs_pending(s).dom().contains(k),
    decreases s.len(),
{
    if s.len() > 0 {
        assert forall|i: int| 0 <= i < s.drop_last().len() implies s.drop_last()[i].variant
            != k by {
            assert(s.drop_last()[i] == s[i]);
        }
        lemma_evs_pending_absent(s.drop_last(), k);
        assert(s[s.len() - 1].variant != k);
    }
}

/// Removing the entry at `i` removes exactly its key from the pending map.
proof fn lemma_evs_pending_remove<T>(s: Seq<TimerEvent<T>>, i: int)
    requires
        evs_unique(s),
        0 <= i < s.len(),
    ensures
        evs_pending(s.remove(i)) == evs_pending(s).remove(s[i].variant),
    decreases s.len(),
{
    let k = s[i].variant;
    s.remove_ensures(i);
    if i == s.len() - 1 {
        assert(s.remove(i) =~= s.drop_last());
        assert forall|j: int| 0 <= j < s.drop_last().len() implies s.drop_last()[j].variant
            != k by {
            assert(s.drop_last()[j] == s[j]);
            assert(s[j].variant != s[i].variant);
        }
        lemma_evs_pending_absent(s.drop_last(), k);
        assert(evs_pending(s).remove(k) =~= evs_pending(s.drop_last()));
    } else {
        let s2 = s.remove(i);
        lemma_evs_prefix_wf(s);
        s.drop_last().remove_ensures(i);
        assert(s2.drop_last() =~= s.drop_last().remove(i));
        assert(s2.last() == s[s.len() - 1]);
        lemma_evs_pending_remove(s.drop_last(), i);
        assert(s.drop_last()[i] == s[i]);
        let lv = s.last().variant;
        let lw = s.last().when;
        assert(s[i].variant != s[s.len() - 1].variant);
        assert(evs_pending(s.drop_last()).remove(k).insert(lv, lw) =~= evs_pending(
            s.drop_last(),
        ).insert(lv, lw).remove(k));
    }
}

/// Inserting an entry for a key no entry carries adds exactly that key.
proof fn lemma_evs_pending_insert<T>(s: Seq<TimerEvent<T>>, i: int, ev: TimerEvent<T>)
    requires
        0 <= i <= s.len(),
        forall|j: int| 0 <= j < s.len() ==> s[j].variant != ev.variant,
    ensures
        evs_pending(s.insert(i, ev)) == evs_pending(s).insert(ev.variant, ev.when),
    decreases s.len(),
{
    s.insert_ensures(i, ev);
    let s3 = s.insert(i, ev);
    if i == s.len() {
        assert(s3.drop_last() =~= s);
        assert(s3.last() == ev);
    } else {
        assert(s3.last() == s3[s.len() as int]);
        assert(s3[s.len() as int] == s[s.len() - 1]);
        s.drop_last().insert_ensures(i, ev);
        assert(s3.drop_last() =~= s.drop_last().insert(i, ev));
        assert forall|j: int| 0 <= j < s.drop_last().len() implies s.drop_last()[j].variant
            != ev.variant by {
            assert(s.drop_last()[j] == s[j]);
        }
        lemma_evs_pending_insert(s.drop_last(), i, ev);
        let lv = s.last().variant;
        let lw = s.last().when;
        assert(s[s.len() - 1].variant != ev.variant);
        assert(evs_pending(s.drop_last()).insert(ev.variant, ev.when).insert(lv, lw)
            =~= evs_pending(s.drop_last()).insert(lv, lw).insert(ev.variant, ev.when));
    }
}

/// Removing an entry keeps order and key uniqueness.
proof fn lemma_evs_remove_wf<T>(s: Seq<TimerEvent<T>>, i: int)
    requires
        evs_sorted(s),
        evs_unique(s),
        0 <= i < s.len(),
    ensures
        evs_sorted(s.remove(i)),
        evs_unique(s.remove(i)),
{
    s.remove_ensures(i);
    let s2 = s.remove(i);
    assert forall|a: int, b: int| 0 <= a < b < s2.len() implies s2[a].when <= s2[b].when
        && s2[a].variant != s2[b].variant by {
        if a < i {
            assert(s2[a] == s[a]);
        } else {
            assert(s2[a] == s[a + 1]);
        }
        if b < i {
            assert(s2[b] == s[b]);
        } else {
            assert(s2[b] == s[b + 1]);
        }
    }
}

/// Inserting between the entries at most as late and those strictly later
/// keeps order, and a fresh key keeps uniqueness.
proof fn lemma_evs_insert_wf<T>(s: Seq<TimerEvent<T>>, i: int, ev: TimerEvent<T>)
    requires
        evs_sorted(s),
        evs_unique(s),
        0 <= i <= s.len(),
        forall|j: int| 0 <= j < s.len() ==> s[j].variant != ev.variant,
        forall|j: int| 0 <= j < i ==> s[j].when <= ev.when,
        forall|j: int| i <= j < s.len() ==> ev.when <= s[j].when,
    ensures
        evs_sorted(s.insert(i, ev)),
        evs_unique(s.insert(i, ev)),
{
    s.insert_ensures(i, ev);
    let s3 = s.insert(i, ev);
    assert forall|a: int, b: int| 0 <= a < b < s3.len() implies s3[a].when <= s3[b].when
        && s3[a].variant != s3[b].variant by {
        if a < i {
            assert(s3[a] == s[a]);
        } else if a == i {
            assert(s3[a] == ev);
        } else {
            assert(s3[(a - 1) + 1] == s[a - 1]);
        }
        if b < i {
            assert(s3[b] == s[b]);
        } else if b == i {
            assert(s3[b] == ev);
        } else {
            assert(s3[(b - 1) + 1] == s[b - 1]);
        }
    }
}

/// The dynamic, sorted-list storage strategy: a single sequence of entries
/// in ascending deadline order, one per key. `set` drops any entry for the
/// key and inserts at the sorted position; evaluation only ever inspects
/// the head, which is always the earliest deadline.
impl<T: TimerKey> TimerStorage<T> for Vec<TimerEvent<T>> {
    open spec fn wf(&self) -> bool {
        evs_sorted(self@) && evs_unique(self@)
    }

    open spec fn pending(&self) -> Map<T, u64> {
        evs_pending(self@)
    }

    fn new() -> (s: Self) {
        let v: Vec<TimerEvent<T>> = Vec::new();
        proof {
            assert(evs_pending(v@) =~= Map::<T, u64>::empty());
        }
        v
    }

    #[verifier::loop_isolation(false)]
    fn clear(&mut self, variant: &T) {
        let ghost s0 = self@;
        let mut i: usize = 0;
        while i < self.len()
            invariant
                self@ == s0,
                evs_sorted(s0),
                evs_unique(s0),
                i <= s0.len(),
                forall|j: int| 0 <= j < i ==> s0[j].variant != *variant,
            decreases s0.len() - i,
        {
            if self[i].variant.eq_key(variant) {
                proof {
                    assert(s0[i as int].variant == *variant);
                    lemma_evs_pending_remove(s0, i as int);
                    lemma_evs_remove_wf(s0, i as int);
                }
                let _ = self.remove(i);
                return;
            }
            i = i + 1;
        }
        proof {
            lemma_evs_pending_absent(s0, *variant);
            assert(evs_pending(s0).remove(*variant) =~= evs_pending(s0));
        }
    }

    fn set(&mut self, variant: &T, when: u64) {
        TimerStorage::clear(self, variant);
        let ghost s1 = self@;
        let mut idx: usize = 0;
        while idx < self.len() && self[idx].when <= when
            invariant
                self@ == s1,
                evs_sorted(s1),
                evs_unique(s1),
                idx <= s1.len(),
                forall|j: int| 0 <= j < idx ==> s1[j].when <= when,
            decreases s1.len() - idx,
        {
            idx = idx + 1;
        }
        let ev = TimerEvent { variant: variant.dup(), when: when };
        proof {
            lemma_evs_pending_dom(s1);
            assert forall|j: int| 0 <= j < s1.len() implies s1[j].variant != ev.variant by {
                if s1[j].variant == ev.variant {
                    assert(evs_pending(s1).dom().contains(ev.variant));
                }
            }
            assert forall|j: int| idx <= j < s1.len() implies ev.when <= s1[j].when by {
                assert(s1[idx as int].when > when);
                assert(s1[idx as int].when <= s1[j].when);
            }
            lemma_evs_insert_wf(s1, idx as int, ev);
            lemma_evs_pending_insert(s1, idx as int, ev);
            assert(evs_pending(s1).insert(ev.variant, ev.when) =~= old(self).pending().insert(
                *variant,
                when,
            ));
        }
        self.insert(idx, ev);
    }

    fn next_action(&mut self, now: u64) -> (r: TimerAction<T>) {
        let ghost s0 = self@;
        if self.len() == 0 {
            proof {
                assert(evs_pending(s0) =~= Map::<T, u64>::empty());
            }
            return TimerAction::Wait(WAIT_CEILING_MS);
        }
        let first_when = self[0].when;
        if first_when <= now {
            proof {
                lemma_evs_pending_at(s0, 0);
                lemma_evs_pending_remove(s0, 0);
                lemma_evs_remove_wf(s0, 0);
            }
            let ev = self.remove(0);
            return TimerAction::Trigger(ev.variant);
        }
        let gap = first_when - now;
        let d: u32 = if gap >= WAIT_CEILING_MS as u64 {
            WAIT_CEILING_MS
        } else {
            gap as u32
        };
        proof {
            lemma_evs_pending_dom(s0);
            assert forall|k: T| evs_pending(s0).dom().contains(k) implies evs_pending(s0)[k] - now
                >= d && evs_pending(s0)[k] > now by {
                let i = choose|i: int| 0 <= i < s0.len() && s0[i].variant == k;
                lemma_evs_pending_at(s0, i);
                assert(s0[i].when >= s0[0].when);
            }
            if gap < WAIT_CEILING_MS as u64 {
                lemma_evs_pending_at(s0, 0);
                assert(evs_pending(s0)[s0[0].variant] - now == d);
            }
        }
        TimerAction::Wait(d)
    }
}

} // verus!
