//! The closed-enumeration storage strategy: one optional-deadline slot per
//! key of a small fixed enum, evaluated by a full scan in declaration
//! order. This is the shape a code generator emits for a closed key set; it
//! meets the same contract as the dynamic sorted-list storage, so the two
//! are interchangeable behind the trait.

use vstd::prelude::*;

use crate::storage::{TimerKey, TimerStorage};
use crate::timer::{TimerAction, WAIT_CEILING_MS};

verus! {

/// A closed set of timer keys.
#[derive(Clone, Copy, PartialEq, Eq, Structural, Debug)]
pub enum GEvent {
    Yks,
    Kaks,
}

impl TimerKey for GEvent {
    fn dup(&self) -> (r: GEvent) {
        *self
    }

    fn eq_key(&self, other: &GEvent) -> (r: bool) {
        *self == *other
    }
}

/// One optional-deadline slot per key of `GEvent`, in declaration order.
pub struct GEventStorage {
    yks: Option<u64>,
    kaks: Option<u64>,
}

impl GEventStorage {
    /// The slot a key names.
    pub closed spec fn slot(&self, k: GEvent) -> Option<u64> {
        match k {
            GEvent::Yks => self.yks,
            GEvent::Kaks => self.kaks,
        }
    }
}

impl TimerStorage<GEvent> for GEventStorage {
    open spec fn wf(&self) -> bool {
        true
    }

    open spec fn pending(&self) -> Map<GEvent, u64> {
        Map::new(|k: GEvent| self.slot(k) is Some, |k: GEvent| self.slot(k)->0)
    }

    fn new() -> (s: Self) {
        let s = GEventStorage { yks: None, kaks: None };
        proof {
            assert(s.pending() =~= Map::<GEvent, u64>::empty());
        }
        s
    }

    fn clear(&mut self, variant: &GEvent) {
        match variant {
            GEvent::Yks => {
                self.yks = None;
            },
            GEvent::Kaks => {
                self.kaks = None;
            },
        }
        proof {
            assert(self.pending() =~= old(self).pending().remove(*variant));
        }
    }

    fn set(&mut self, variant: &GEvent, when: u64) {
        match variant {
            GEvent::Yks => {
                self.yks = Some(when);
            },
            GEvent::Kaks => {
                self.kaks = Some(when);
            },
        }
        proof {
            assert(self.pending() =~= old(self).pending().insert(*variant, when));
        }
    }

    fn next_action(&mut self, now: u64) -> (r: TimerAction<GEvent>) {
        if let Some(w) = self.yks {
            if w <= now {
                self.yks = None;
                proof {
                    assert(self.pending() =~= old(self).pending().remove(GEvent::Yks));
                }
                return TimerAction::Trigger(GEvent::Yks);
            }
        }
        if let Some(w) = self.kaks {
            if w <= now {
                self.kaks = None;
                proof {
                    assert(self.pending() =~= old(self).pending().remove(GEvent::Kaks));
                }
                return TimerAction::Trigger(GEvent::Kaks);
            }
        }
        let mut d: u32 = WAIT_CEILING_MS;
        if let Some(w) = self.yks {
            let gap = w - now;
            if gap < d as u64 {
                d = gap as u32;
            }
        }
        if let Some(w) = self.kaks {
            let gap = w - now;
            if gap < d as u64 {
                d = gap as u32;
            }
        }
        proof {
            let p = self.pending();
            assert forall|k: GEvent| p.dom().contains(k) implies p[k] - now >= d && p[k]
                > now by {
                if k is Yks {
                    assert(p[k] == self.yks->0);
                } else {
                    assert(p[k] == self.kaks->0);
                }
            }
            if d != WAIT_CEILING_MS {
                if self.yks is Some && self.yks->0 - now == d as u64 {
                    assert(p.dom().contains(GEvent::Yks));
                    assert(p[GEvent::Yks] - now == d);
                } else {
                    assert(p.dom().contains(GEvent::Kaks));
                    assert(p[GEvent::Kaks] - now == d);
                }
            }
        }
        TimerAction::Wait(d)
    }
}

} // verus!
