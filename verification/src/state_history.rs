use vstd::prelude::*;

use crate::machine::MachineState;
use crate::message::VirtualTime;

verus! {

/// A state snapshot paired with the virtual time at which it was taken.
#[derive(Debug)]
pub struct StampedMachineState {
    pub machine_state: MachineState,
    pub virtual_time_stamp: VirtualTime,
}

impl Clone for StampedMachineState {
    fn clone(&self) -> (r: Self)
        ensures
            r == *self,
    {
        StampedMachineState {
            machine_state: self.machine_state.clone(),
            virtual_time_stamp: self.virtual_time_stamp,
        }
    }
}

/// Timestamps are strictly increasing.
pub open spec fn stamps_sorted(s: Seq<StampedMachineState>) -> bool {
    forall|i: int, j: int|
        0 <= i < j < s.len() ==> s[i].virtual_time_stamp < s[j].virtual_time_stamp
}

/// A well-formed history: strictly increasing timestamps, and the initial
/// entry at virtual time zero is present, so a snapshot below any positive
/// rollback target always exists.
pub open spec fn hist_wf(s: Seq<StampedMachineState>) -> bool {
    &&& s.len() >= 1
    &&& s[0].virtual_time_stamp == 0
    &&& stamps_sorted(s)
}

/// The index of the last entry with timestamp strictly below `t`
/// (`-1` if there is none).
pub open spec fn last_below(s: Seq<StampedMachineState>, t: int) -> int
    decreases s.len(),
{
    if s.len() == 0 {
        -1
    } else if s.last().virtual_time_stamp < t {
        s.len() - 1
    } else {
        last_below(s.drop_last(), t)
    }
}

/// The snapshot restored by a rollback with target `t`: the one taken at the
/// greatest virtual time strictly below `t`.
pub open spec fn restored_state(s: Seq<StampedMachineState>, t: int) -> MachineState {
    s[last_below(s, t)].machine_state
}

/// What remains of a sorted history once every entry with timestamp at or
/// after `t` is discarded.
pub open spec fn purged(s: Seq<StampedMachineState>, t: int) -> Seq<StampedMachineState> {
    s.take(last_below(s, t) + 1)
}

/// Some entry carries exactly the timestamp `t`.
pub open spec fn has_stamp(s: Seq<StampedMachineState>, t: VirtualTime) -> bool {
    exists|i: int| 0 <= i < s.len() && s[i].virtual_time_stamp == t
}

/// The first index whose timestamp exceeds `t`, or `s.len()` if there is none.
pub open spec fn stamp_first_above(s: Seq<StampedMachineState>, t: int) -> int
    decreases s.len(),
{
    if s.len() == 0 {
        0
    } else if s[0].virtual_time_stamp > t {
        0
    } else {
        1 + stamp_first_above(s.skip(1), t)
    }
}

/// The history after `checkpoint(t, st)`: unchanged when an entry at `t`
/// already exists (the earlier snapshot is kept), otherwise the new snapshot
/// enters at its sorted position.
pub open spec fn checkpointed(
    s: Seq<StampedMachineState>,
    t: VirtualTime,
    st: MachineState,
) -> Seq<StampedMachineState> {
    if has_stamp(s, t) {
        s
    } else {
        s.insert(
            stamp_first_above(s, t as int),
            StampedMachineState { machine_state: st, virtual_time_stamp: t },
        )
    }
}

pub proof fn lemma_last_below(s: Seq<StampedMachineState>, t: int)
    requires
        stamps_sorted(s),
        s.len() >= 1,
        s[0].virtual_time_stamp < t,
    ensures
        0 <= last_below(s, t) < s.len(),
        s[last_below(s, t)].virtual_time_stamp < t,
        forall|j: int| last_below(s, t) < j < s.len() ==> s[j].virtual_time_stamp >= t,
        forall|j: int| 0 <= j <= last_below(s, t) ==> s[j].virtual_time_stamp < t,
    decreases s.len(),
{
    if s.last().virtual_time_stamp < t {
        assert forall|j: int| 0 <= j <= last_below(s, t) implies s[j].virtual_time_stamp < t by {
            if j < s.len() - 1 {
                assert(s[j].virtual_time_stamp < s[s.len() - 1].virtual_time_stamp);
            }
        }
    } else {
        let d = s.drop_last();
        assert(s.len() >= 2);
        assert forall|i: int, j: int| 0 <= i < j < d.len() implies d[i].virtual_time_stamp
            < d[j].virtual_time_stamp by {
            assert(d[i] == s[i]);
            assert(d[j] == s[j]);
        }
        assert(d[0] == s[0]);
        lemma_last_below(d, t);
        assert forall|j: int| last_below(s, t) < j < s.len() implies s[j].virtual_time_stamp
            >= t by {
            if j < s.len() - 1 {
                assert(d[j] == s[j]);
            }
        }
        assert forall|j: int| 0 <= j <= last_below(s, t) implies s[j].virtual_time_stamp < t by {
            assert(d[j] == s[j]);
        }
    }
}

pub proof fn lemma_stamp_first_above_props(s: Seq<StampedMachineState>, t: int)
    ensures
        0 <= stamp_first_above(s, t) <= s.len(),
        forall|j: int| 0 <= j < stamp_first_above(s, t) ==> s[j].virtual_time_stamp <= t,
        stamp_first_above(s, t) < s.len() ==> s[stamp_first_above(s, t)].virtual_time_stamp > t,
    decreases s.len(),
{
    if s.len() == 0 {
    } else if s[0].virtual_time_stamp > t {
    } else {
        lemma_stamp_first_above_props(s.skip(1), t);
        assert forall|j: int| 0 <= j < stamp_first_above(s, t) implies s[j].virtual_time_stamp
            <= t by {
            if j > 0 {
                assert(s.skip(1)[j - 1] == s[j]);
            }
        }
        if stamp_first_above(s, t) < s.len() {
            assert(s.skip(1)[stamp_first_above(s.skip(1), t)] == s[stamp_first_above(s, t)]);
        }
    }
}

pub proof fn lemma_stamp_first_above_unique(s: Seq<StampedMachineState>, t: int, p: int)
    requires
        0 <= p <= s.len(),
        forall|j: int| 0 <= j < p ==> s[j].virtual_time_stamp <= t,
        p < s.len() ==> s[p].virtual_time_stamp > t,
    ensures
        stamp_first_above(s, t) == p,
    decreases s.len(),
{
    if p == 0 {
    } else {
        assert(s[0].virtual_time_stamp <= t);
        assert forall|j: int| 0 <= j < p - 1 implies s.skip(1)[j].virtual_time_stamp <= t by {
            assert(s.skip(1)[j] == s[j + 1]);
        }
        if p - 1 < s.len() - 1 {
            assert(s.skip(1)[p - 1] == s[p]);
        }
        lemma_stamp_first_above_unique(s.skip(1), t, p - 1);
    }
}

/// Checkpointing keeps the history well formed, and every entry of the
/// result either carries the new timestamp or was already present.
pub proof fn lemma_checkpointed_wf(s: Seq<StampedMachineState>, t: VirtualTime, st: MachineState)
    requires
        hist_wf(s),
    ensures
        hist_wf(checkpointed(s, t, st)),
        forall|j: int|
            0 <= j < checkpointed(s, t, st).len() ==> ((#[trigger] checkpointed(
                s,
                t,
                st,
            )[j]).virtual_time_stamp == t || exists|i: int|
                0 <= i < s.len() && checkpointed(s, t, st)[j] == s[i]),
{
    if has_stamp(s, t) {
    } else {
        let p = stamp_first_above(s, t as int);
        lemma_stamp_first_above_props(s, t as int);
        let r = checkpointed(s, t, st);
        assert forall|a: int, b: int| 0 <= a < b < r.len() implies r[a].virtual_time_stamp
            < r[b].virtual_time_stamp by {
            if a < p {
                assert(r[a] == s[a]);
            } else if a > p {
                assert(r[a] == s[a - 1]);
            }
            if b < p {
                assert(r[b] == s[b]);
            } else if b > p {
                assert(r[b] == s[b - 1]);
            }
            if a < p && b == p {
                assert(s[a].virtual_time_stamp <= t);
                assert(s[a].virtual_time_stamp != t);
            }
            if a == p && b > p {
                assert(s[b - 1].virtual_time_stamp > t);
            }
        }
        assert(r[0].virtual_time_stamp == 0) by {
            if p == 0 {
                assert(s[0].virtual_time_stamp > t);
            } else {
                assert(r[0] == s[0]);
            }
        }
        assert forall|j: int|
            0 <= j < r.len() implies ((#[trigger] r[j]).virtual_time_stamp == t || exists|i: int|
            0 <= i < s.len() && r[j] == s[i]) by {
            if j < p {
                assert(r[j] == s[j]);
            } else if j > p {
                assert(r[j] == s[j - 1]);
            }
        }
    }
}

/// The ordered collection of `(virtual time, snapshot)` checkpoints a machine
/// keeps so that a straggler can roll its state back.
#[derive(Debug)]
pub struct StateHistory {
    entries: Vec<StampedMachineState>,
}

impl View for StateHistory {
    type V = Seq<StampedMachineState>;

    closed spec fn view(&self) -> Seq<StampedMachineState> {
        self.entries@
    }
}

impl StateHistory {
    pub open spec fn wf(self) -> bool {
        hist_wf(self@)
    }

    /// A fresh history holding only the initial entry `(0, initial)`.
    pub fn new(initial: MachineState) -> (r: Self)
        ensures
            r.wf(),
            r@.len() == 1,
            r@[0].virtual_time_stamp == 0,
            r@[0].machine_state == initial,
    {
        let mut entries: Vec<StampedMachineState> = Vec::new();
        entries.push(StampedMachineState { machine_state: initial, virtual_time_stamp: 0 });
        StateHistory { entries }
    }

    /// Record a snapshot of `state` at virtual time `t`. If a snapshot at `t`
    /// is already present, the earlier one is kept.
    pub fn checkpoint(&mut self, t: VirtualTime, state: MachineState)
        requires
            old(self).wf(),
        ensures
            final(self).wf(),
            final(self)@ == checkpointed(old(self)@, t, state),
    {
        let ghost s0 = self.entries@;
        let n = self.entries.len();
        let mut i: usize = 0;
        while i < n
            invariant
                self.entries@ == s0,
                s0 == old(self)@,
                hist_wf(s0),
                n == s0.len(),
                0 <= i <= n,
                forall|j: int| 0 <= j < i ==> s0[j].virtual_time_stamp != t,
            decreases n - i,
        {
            if self.entries[i].virtual_time_stamp == t {
                proof {
                    assert(has_stamp(s0, t));
                }
                return;
            }
            i += 1;
        }
        proof {
            assert(!has_stamp(s0, t));
        }
        let mut p: usize = 0;
        while p < n && self.entries[p].virtual_time_stamp <= t
            invariant
                self.entries@ == s0,
                s0 == old(self)@,
                hist_wf(s0),
                n == s0.len(),
                0 <= p <= n,
                forall|j: int| 0 <= j < p ==> s0[j].virtual_time_stamp <= t,
            decreases n - p,
        {
            p += 1;
        }
        proof {
            lemma_stamp_first_above_unique(s0, t as int, p as int);
            lemma_stamp_first_above_props(s0, t as int);
        }
        self.entries.insert(p, StampedMachineState { machine_state: state, virtual_time_stamp: t });
        proof {
            let r = self.entries@;
            let pp = p as int;
            assert forall|a: int, b: int| 0 <= a < b < r.len() implies r[a].virtual_time_stamp
                < r[b].virtual_time_stamp by {
                if a < pp {
                    assert(r[a] == s0[a]);
                } else if a > pp {
                    assert(r[a] == s0[a - 1]);
                }
                if b < pp {
                    assert(r[b] == s0[b]);
                } else if b > pp {
                    assert(r[b] == s0[b - 1]);
                }
                if a < pp && b == pp {
                    assert(s0[a].virtual_time_stamp <= t);
                    assert(s0[a].virtual_time_stamp != t);
                }
                if a == pp && b > pp {
                    assert(s0[b - 1].virtual_time_stamp > t);
                }
            }
            assert(r[0].virtual_time_stamp == 0) by {
                if pp == 0 {
                    assert(s0[0].virtual_time_stamp > t);
                    assert(r[0] == StampedMachineState { machine_state: state, virtual_time_stamp: t });
                } else {
                    assert(r[0] == s0[0]);
                }
            }
        }
    }

    /// The snapshot taken at the greatest virtual time strictly below `t`:
    /// what a rollback with target `t` restores. The initial entry guarantees
    /// one exists for every positive `t`.
    pub fn most_recent_before(&self, t: VirtualTime) -> (r: MachineState)
        requires
            self.wf(),
            t >= 1,
        ensures
            r == restored_state(self@, t as int),
    {
        proof {
            lemma_last_below(self@, t as int);
        }
        let n = self.entries.len();
        let mut idx: usize = 0;
        let mut j: usize = 1;
        while j < n
            invariant
                self.wf(),
                self@.len() == n,
                t >= 1,
                1 <= j <= n,
                0 <= idx < j,
                self@[idx as int].virtual_time_stamp < t,
                forall|k: int| idx < k < j ==> self@[k].virtual_time_stamp >= t,
            decreases n - j,
        {
            if self.entries[j].virtual_time_stamp < t {
                idx = j;
            }
            j += 1;
        }
        proof {
            lemma_last_below(self@, t as int);
            let lb = last_below(self@, t as int);
            assert(lb == idx as int) by {
                if lb > idx as int {
                    assert(self@[lb].virtual_time_stamp >= t);
                }
                if lb < idx as int {
                    assert(self@[idx as int].virtual_time_stamp >= t);
                }
            }
        }
        self.entries[idx].machine_state.clone()
    }

    /// Discard every snapshot taken at or after virtual time `t`; a rollback
    /// with target `t` invalidates them. `t` is positive, so the initial
    /// entry survives.
    pub fn purge_at_or_after(&mut self, t: VirtualTime)
        requires
            old(self).wf(),
            t >= 1,
        ensures
            final(self).wf(),
            final(self)@ == purged(old(self)@, t as int),
            forall|j: int|
                0 <= j < final(self)@.len() ==> (#[trigger] final(self)@[j]).virtual_time_stamp
                    < t,
    {
        proof {
            lemma_last_below(old(self)@, t as int);
        }
        let ghost s0 = self.entries@;
        proof {
            assert(s0.take(s0.len() as int) =~= s0);
            assert(0 <= s0.len() && self.entries@ == s0.take(s0.len() as int) && last_below(
                s0,
                t as int,
            ) < s0.len());
        }
        while self.entries.len() > 0 && self.entries[self.entries.len() - 1].virtual_time_stamp
            >= t
            invariant
                s0 == old(self)@,
                stamps_sorted(s0),
                s0.len() >= 1,
                s0[0].virtual_time_stamp == 0,
                t >= 1,
                exists|k: int|
                    0 <= k <= s0.len() && self.entries@ == s0.take(k) && last_below(s0, t as int)
                        < k,
            decreases self.entries@.len(),
        {
            let ghost kpre = choose|k: int|
                0 <= k <= s0.len() && self.entries@ == s0.take(k) && last_below(s0, t as int) < k;
            self.entries.pop();
            proof {
                assert(self.entries@ =~= s0.take(kpre - 1));
                assert(last_below(s0, t as int) < kpre - 1) by {
                    assert(s0.take(kpre)[kpre - 1] == s0[kpre - 1]);
                    assert(s0[kpre - 1].virtual_time_stamp >= t);
                    lemma_last_below(s0, t as int);
                }
            }
        }
        proof {
            let k = choose|k: int|
                0 <= k <= s0.len() && self.entries@ == s0.take(k) && last_below(s0, t as int) < k;
            let lb = last_below(s0, t as int);
            lemma_last_below(s0, t as int);
            assert(k == lb + 1) by {
                if k > lb + 1 {
                    assert(s0.take(k)[k - 1] == s0[k - 1]);
                    assert(s0[k - 1].virtual_time_stamp >= t);
                    assert(self.entries@.len() > 0);
                    assert(self.entries@[self.entries@.len() - 1].virtual_time_stamp >= t);
                }
            }
            assert forall|j: int|
                0 <= j < self.entries@.len() implies (#[trigger] self.entries@[j]).virtual_time_stamp
                < t by {
                assert(self.entries@[j] == s0[j]);
            }
            assert forall|a: int, b: int|
                0 <= a < b < self.entries@.len() implies self.entries@[a].virtual_time_stamp
                < self.entries@[b].virtual_time_stamp by {
                assert(self.entries@[a] == s0[a]);
                assert(self.entries@[b] == s0[b]);
            }
        }
    }
}

} // verus!
