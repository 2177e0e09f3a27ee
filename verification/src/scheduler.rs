//! The interval scheduler's timer table.
//!
//! One counter per target holds the time left until the target is due.  A
//! scheduling cycle picks the target with the least time left, waits that
//! long, fires the target, credits every other target with the time waited
//! and re-arms the fired one with its interval.  The table decides; waiting
//! and dispatching belong to the caller.
//!
//! Times are whole nanoseconds.

use vstd::prelude::*;

verus! {

/// The mathematical content of a [`TimerTable`]: for each target, by index,
/// its interval and the time left until it is due.
pub struct TimerState {
    pub intervals: Seq<int>,
    pub remaining: Seq<int>,
}

/// The number of zero entries of `r`.
pub open spec fn zeros(r: Seq<int>) -> nat
    decreases r.len(),
{
    if r.len() == 0 {
        0
    } else {
        zeros(r.drop_last()) + if r.last() == 0 {
            1nat
        } else {
            0nat
        }
    }
}

/// The index of the least entry of `r`, the lowest such index; 0 for an
/// empty `r`.
pub open spec fn least_index(r: Seq<int>) -> int
    decreases r.len(),
{
    if r.len() <= 1 {
        0
    } else {
        let m = least_index(r.drop_last());
        if r.last() < r[m] {
            r.len() - 1
        } else {
            m
        }
    }
}

impl TimerState {
    /// The number of targets.
    pub open spec fn len(self) -> int {
        self.intervals.len() as int
    }

    /// Every target has a counter, and no counter is negative or above its
    /// target's interval.
    pub open spec fn wf(self) -> bool {
        &&& self.remaining.len() == self.intervals.len()
        &&& forall|i: int|
            0 <= i < self.len() ==> 0 <= #[trigger] self.remaining[i] <= self.intervals[i]
    }

    /// Every interval is strictly positive.
    pub open spec fn positive(self) -> bool {
        forall|i: int| 0 <= i < self.len() ==> #[trigger] self.intervals[i] > 0
    }

    /// Target `i` is the one to fire next: no target has less time left, and
    /// every target before it has more.
    pub open spec fn is_due(self, i: int) -> bool {
        &&& 0 <= i < self.remaining.len()
        &&& forall|j: int|
            0 <= j < self.remaining.len() ==> self.remaining[i] <= #[trigger] self.remaining[j]
        &&& forall|j: int| 0 <= j < i ==> self.remaining[i] < #[trigger] self.remaining[j]
    }

    /// The target to fire next.
    pub open spec fn due(self) -> int {
        least_index(self.remaining)
    }

    /// The time to wait before the next target fires.
    pub open spec fn wait(self) -> int {
        self.remaining[self.due()]
    }

    /// The table after target `i` has fired: every other target is credited
    /// with the time that `i` had left, and `i` is re-armed with its interval.
    pub open spec fn after_fire(self, i: int) -> TimerState {
        TimerState {
            intervals: self.intervals,
            remaining: Seq::new(
                self.remaining.len(),
                |j: int|
                    if j == i {
                        self.intervals[i]
                    } else {
                        self.remaining[j] - self.remaining[i]
                    },
            ),
        }
    }

    /// The table after one scheduling cycle.
    pub open spec fn step(self) -> TimerState {
        self.after_fire(self.due())
    }

    /// The table after `k` scheduling cycles.
    pub open spec fn run(self, k: nat) -> TimerState
        decreases k,
    {
        if k == 0 {
            self
        } else {
            self.step().run((k - 1) as nat)
        }
    }

    /// The time waited in the first `k` scheduling cycles.
    pub open spec fn elapsed(self, k: nat) -> int
        decreases k,
    {
        if k == 0 {
            0
        } else {
            self.wait() + self.step().elapsed((k - 1) as nat)
        }
    }
}

/// In a non-empty table the least index is the due target.
pub proof fn lemma_least_index_is_due(s: TimerState)
    requires
        s.remaining.len() > 0,
    ensures
        s.is_due(s.due()),
    decreases s.remaining.len(),
{
    let r = s.remaining;
    if r.len() > 1 {
        let shorter = TimerState { intervals: s.intervals, remaining: r.drop_last() };
        lemma_least_index_is_due(shorter);
        let m = least_index(r.drop_last());
        assert(shorter.is_due(m));
        assert forall|j: int| 0 <= j < r.len() - 1 implies r[m] <= r[j] by {
            assert(shorter.remaining[j] == r[j]);
        }
        assert forall|j: int| 0 <= j < m implies r[m] < r[j] by {
            assert(shorter.remaining[j] == r[j]);
        }
    }
}

/// At most one target is due.
pub proof fn lemma_due_is_unique(s: TimerState, i: int, j: int)
    requires
        s.is_due(i),
        s.is_due(j),
    ensures
        i == j,
{
    if i < j {
        assert(s.remaining[j] < s.remaining[i]);
    } else if j < i {
        assert(s.remaining[i] < s.remaining[j]);
    }
}

/// A scheduling cycle keeps the table well formed and the intervals as they
/// are.
pub proof fn lemma_step_keeps_wf(s: TimerState)
    requires
        s.wf(),
        s.len() > 0,
    ensures
        s.step().wf(),
        s.step().intervals == s.intervals,
{
    lemma_least_index_is_due(s);
}

/// Setting a zero entry to a positive value takes one from the number of
/// zero entries.
proof fn lemma_zeros_update(r: Seq<int>, d: int, v: int)
    requires
        0 <= d < r.len(),
        r[d] == 0,
        v > 0,
    ensures
        zeros(r.update(d, v)) + 1 == zeros(r),
    decreases r.len(),
{
    let u = r.update(d, v);
    if d == r.len() - 1 {
        assert(u.drop_last() =~= r.drop_last());
    } else {
        assert(u.drop_last() =~= r.drop_last().update(d, v));
        lemma_zeros_update(r.drop_last(), d, v);
    }
}

/// Drift correction: from any well-formed table with positive intervals,
/// every target fires, and it fires for the first time exactly when the time
/// it had left has been waited.  A target that has just fired has its whole
/// interval left, so it fires again exactly one interval later, however many
/// other targets the table holds.
///
/// `k` counts the cycles before the one in which target `i` fires.
pub proof fn lemma_every_target_fires(s: TimerState, i: int) -> (k: nat)
    requires
        s.wf(),
        s.positive(),
        0 <= i < s.len(),
    ensures
        s.run(k).due() == i,
        forall|earlier: nat| earlier < k ==> s.run(earlier).due() != i,
        s.elapsed(k) + s.run(k).wait() == s.remaining[i],
        s.remaining[i] <= s.intervals[i],
    decreases s.remaining[i], zeros(s.remaining),
{
    lemma_least_index_is_due(s);
    let d = s.due();
    if d == i {
        0
    } else {
        let next = s.step();
        lemma_step_keeps_wf(s);
        if s.remaining[d] == 0 {
            assert(next.remaining =~= s.remaining.update(d, s.intervals[d]));
            lemma_zeros_update(s.remaining, d, s.intervals[d]);
        }
        let k1 = lemma_every_target_fires(next, i);
        let k = k1 + 1;
        assert forall|earlier: nat| earlier < k implies s.run(earlier).due() != i by {
            if earlier > 0 {
                assert(s.run(earlier) == next.run((earlier - 1) as nat));
            }
        }
        k
    }
}

/// A target that fires is next to fire exactly one interval later: between two
/// firings of a target lies the target's interval, whatever the other targets
/// are and however many.
///
/// `k` counts the cycles between the two firings.
pub proof fn lemma_fires_again_after_its_interval(s: TimerState) -> (k: nat)
    requires
        s.wf(),
        s.positive(),
        s.len() > 0,
    ensures
        s.step().run(k).due() == s.due(),
        forall|earlier: nat| earlier < k ==> s.step().run(earlier).due() != s.due(),
        s.step().elapsed(k) + s.step().run(k).wait() == s.intervals[s.due()],
{
    lemma_least_index_is_due(s);
    lemma_step_keeps_wf(s);
    lemma_every_target_fires(s.step(), s.due())
}

/// The timer table: one counter per target, owned by the scheduling loop.
pub struct TimerTable {
    intervals: Vec<u128>,
    remaining: Vec<u128>,
}

/// What a scheduling cycle asks of the caller: wait `wait` nanoseconds, then
/// run target `index`.
#[derive(Clone, Copy, Debug, PartialEq, Eq)]
pub struct Dispatch {
    pub index: usize,
    pub wait: u128,
}

impl View for TimerTable {
    type V = TimerState;

    closed spec fn view(&self) -> TimerState {
        TimerState {
            intervals: Seq::new(self.intervals@.len(), |i: int| self.intervals@[i] as int),
            remaining: Seq::new(self.remaining@.len(), |i: int| self.remaining@[i] as int),
        }
    }
}

impl TimerTable {
    #[verifier::type_invariant]
    spec fn inv(self) -> bool {
        self@.wf()
    }

    /// A table for targets with the given intervals, each counter set to its
    /// target's interval.
    pub fn new(intervals: Vec<u128>) -> (table: TimerTable)
        ensures
            table@.wf(),
            table@.intervals == Seq::new(intervals@.len(), |i: int| intervals@[i] as int),
            table@.remaining == table@.intervals,
    {
        let mut remaining: Vec<u128> = Vec::new();
        let mut i: usize = 0;
        while i < intervals.len()
            invariant
                i <= intervals.len(),
                remaining@ == intervals@.take(i as int),
            decreases intervals.len() - i,
        {
            remaining.push(intervals[i]);
            i += 1;
        }
        assert(remaining@ =~= intervals@);
        let table = TimerTable { intervals, remaining };
        assert(table@.remaining =~= table@.intervals);
        table
    }

    /// The number of targets.
    pub fn len(&self) -> (n: usize)
        ensures
            n == self@.len(),
            self@.wf(),
    {
        proof {
            use_type_invariant(self);
        }
        self.intervals.len()
    }

    /// The interval of target `index`, if there is such a target.
    pub fn interval(&self, index: usize) -> (res: Option<u128>)
        ensures
            self@.wf(),
            res is Some <==> index < self@.len(),
            res matches Some(t) ==> t == self@.intervals[index as int],
    {
        proof {
            use_type_invariant(self);
        }
        if index < self.intervals.len() {
            Some(self.intervals[index])
        } else {
            None
        }
    }

    /// The time left for target `index`, if there is such a target.
    pub fn remaining(&self, index: usize) -> (res: Option<u128>)
        ensures
            self@.wf(),
            res is Some <==> index < self@.len(),
            res matches Some(t) ==> t == self@.remaining[index as int],
    {
        proof {
            use_type_invariant(self);
        }
        if index < self.remaining.len() {
            Some(self.remaining[index])
        } else {
            None
        }
    }

    /// The target to fire next and the time to wait for it: the least time
    /// left, at the lowest index where it stands.  `None` for a table without
    /// targets.
    pub fn next_due(&self) -> (res: Option<Dispatch>)
        ensures
            self@.wf(),
            res is Some <==> self@.len() > 0,
            res matches Some(d) ==> d.index == self@.due() && d.wait == self@.wait()
                && self@.is_due(d.index as int),
    {
        proof {
            use_type_invariant(self);
        }
        if self.remaining.len() == 0 {
            return None;
        }
        let mut best: usize = 0;
        let mut i: usize = 1;
        while i < self.remaining.len()
            invariant
                1 <= i <= self.remaining.len(),
                0 <= best < i,
                forall|j: int| 0 <= j < i ==> self.remaining@[best as int] <= self.remaining@[j],
                forall|j: int| 0 <= j < best ==> self.remaining@[best as int] < self.remaining@[j],
            decreases self.remaining.len() - i,
        {
            if self.remaining[i] < self.remaining[best] {
                best = i;
            }
            i += 1;
        }
        proof {
            lemma_least_index_is_due(self@);
            assert(self@.is_due(best as int));
            lemma_due_is_unique(self@, best as int, self@.due());
        }
        Some(Dispatch { index: best, wait: self.remaining[best] })
    }

    /// One scheduling cycle: picks the due target, credits every other target
    /// with the time to wait, re-arms the due target with its interval, and
    /// says what to wait and what to run.  A table without targets is left as
    /// it is.
    pub fn advance(&mut self) -> (res: Option<Dispatch>)
        ensures
            old(self)@.wf(),
            final(self)@.wf(),
            res is Some <==> old(self)@.len() > 0,
            res is None ==> final(self)@ == old(self)@,
            res matches Some(d) ==> d.index == old(self)@.due() && d.wait == old(self)@.wait()
                && old(self)@.is_due(d.index as int) && final(self)@ == old(self)@.step(),
    {
        let due = match self.next_due() {
            None => {
                return None;
            },
            Some(d) => d,
        };
        proof {
            use_type_invariant(&*self);
        }
        let mut remaining: Vec<u128> = Vec::new();
        let mut j: usize = 0;
        while j < self.remaining.len()
            invariant
                j <= self.remaining.len(),
                self.remaining.len() == self.intervals.len(),
                self@.wf(),
                self@.is_due(due.index as int),
                due.wait == self.remaining@[due.index as int],
                remaining@.len() == j,
                forall|k: int|
                    0 <= k < j ==> #[trigger] remaining@[k] as int == self@.step().remaining[k],
            decreases self.remaining.len() - j,
        {
            proof {
                lemma_least_index_is_due(self@);
                lemma_due_is_unique(self@, due.index as int, self@.due());
                assert(self@.remaining[j as int] >= self@.remaining[due.index as int]);
            }
            if j == due.index {
                remaining.push(self.intervals[j]);
            } else {
                remaining.push(self.remaining[j] - due.wait);
            }
            j += 1;
        }
        let ghost before = self@;
        proof {
            lemma_step_keeps_wf(before);
            let after = TimerTable { intervals: self.intervals, remaining: remaining };
            assert(after@.remaining =~= before.step().remaining);
            assert(after@.intervals =~= before.step().intervals);
        }
        self.remaining = remaining;
        Some(due)
    }
}

} // verus!
