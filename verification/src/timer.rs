//! The timer wheel: a min-heap of `(deadline, task)` entries.
//!
//! Deadlines are absolute instants on a monotonic clock, measured in
//! milliseconds from an arbitrary origin chosen by the embedder. An entry
//! stands for one registered wakeup: when the deadline passes, the task
//! bound to the entry is woken. Entries are ordered solely by deadline;
//! ties may be drained in any order.

use vstd::multiset::Multiset;
use vstd::prelude::*;

use crate::min_heap::{is_min_of, HeapOrd, MinHeap};
use crate::task::TaskId;

verus! {

/// Wrapper for a deadline and the task whose waker fires at it.
#[derive(Debug, Copy, Clone, PartialEq, Eq, Structural)]
pub struct TimerEntry {
    /// When the timer is set to expire.
    pub deadline: u64,
    /// The task to wake when the timer expires.
    pub task: TaskId,
}

impl HeapOrd for TimerEntry {
    /// Entries are ordered solely by deadline.
    open spec fn key(&self) -> int {
        self.deadline as int
    }

    fn le(&self, other: &Self) -> (r: bool) {
        self.deadline <= other.deadline
    }
}

/// A priority queue of timers, keyed by their scheduled wake-up time.
pub struct TimerWheel {
    heap: MinHeap<TimerEntry>,
}

impl View for TimerWheel {
    type V = Multiset<TimerEntry>;

    closed spec fn view(&self) -> Multiset<TimerEntry> {
        self.heap@.to_multiset()
    }
}

impl TimerWheel {
    /// The backing heap keeps its order invariant.
    pub closed spec fn wf(&self) -> bool {
        self.heap.wf()
    }

    /// Creates an empty wheel.
    pub fn new() -> (r: Self)
        ensures
            r.wf(),
            r@ == Multiset::<TimerEntry>::empty(),
    {
        let heap = MinHeap::new();
        proof {
            broadcast use vstd::seq_lib::group_to_multiset_ensures;

            assert(heap@.to_multiset() =~= Multiset::<TimerEntry>::empty());
        }
        TimerWheel { heap }
    }

    /// Number of pending timers.
    pub fn len(&self) -> (r: usize)
        ensures
            r == self@.len(),
    {
        proof {
            broadcast use vstd::seq_lib::group_to_multiset_ensures;

        }
        self.heap.len()
    }

    /// Returns `true` if no timer is pending.
    pub fn is_empty(&self) -> (r: bool)
        ensures
            r == (self@.len() == 0),
    {
        proof {
            broadcast use vstd::seq_lib::group_to_multiset_ensures;

        }
        self.heap.is_empty()
    }

    /// Registers a wakeup for `task` at the absolute instant `deadline`.
    pub fn register(&mut self, deadline: u64, task: TaskId)
        requires
            old(self).wf(),
        ensures
            final(self).wf(),
            final(self)@ == old(self)@.insert(TimerEntry { deadline, task }),
    {
        self.heap.push(TimerEntry { deadline, task });
    }

    /// Returns the earliest pending deadline, if any timer is pending.
    pub fn peek_deadline(&self) -> (r: Option<u64>)
        requires
            self.wf(),
        ensures
            match r {
                None => self@.len() == 0,
                Some(d) => {
                    &&& self@.len() > 0
                    &&& exists|e: TimerEntry| #[trigger] self@.contains(e) && e.deadline == d
                    &&& forall|e: TimerEntry| #[trigger] self@.contains(e) ==> d <= e.deadline
                },
            },
    {
        broadcast use vstd::seq_lib::group_to_multiset_ensures;
        broadcast use vstd::multiset::group_multiset_axioms;

        match self.heap.peek() {
            None => None,
            Some(e) => {
                let d = e.deadline;
                proof {
                    let s = self.heap@;
                    assert(s.contains(s[0]));
                    assert(self@.contains(s[0]));
                    assert forall|x: TimerEntry| #[trigger] self@.contains(x) implies d
                        <= x.deadline by {
                        assert(s.contains(x));
                        let k = choose|k: int| 0 <= k < s.len() && s[k] == x;
                        assert(s[0].key() <= s[k].key());
                    }
                }
                Some(d)
            },
        }
    }

    /// Pops every entry whose deadline has passed, in deadline order.
    ///
    /// The result holds exactly the expired entries; unexpired entries
    /// stay. With an empty wheel this is a no-op.
    pub fn drain_expired(&mut self, now: u64) -> (r: Vec<TimerEntry>)
        requires
            old(self).wf(),
        ensures
            final(self).wf(),
            forall|i: int| 0 <= i < r@.len() ==> #[trigger] r@[i].deadline <= now,
            forall|i: int, j: int|
                0 <= i < j < r@.len() ==> #[trigger] r@[i].deadline <= #[trigger] r@[j].deadline,
            forall|e: TimerEntry| #[trigger] final(self)@.contains(e) ==> e.deadline > now,
            old(self)@ == final(self)@.add(r@.to_multiset()),
            old(self)@.len() == 0 ==> r@.len() == 0 && final(self)@ == old(self)@,
    {
        broadcast use vstd::seq_lib::group_to_multiset_ensures;
        broadcast use vstd::multiset::group_multiset_axioms;

        let ghost m0 = self@;
        let mut out: Vec<TimerEntry> = Vec::new();

        loop
            invariant
                self.wf(),
                m0 == self@.add(out@.to_multiset()),
                forall|i: int| 0 <= i < out@.len() ==> #[trigger] out@[i].deadline <= now,
                forall|i: int, j: int|
                    0 <= i < j < out@.len() ==> #[trigger] out@[i].deadline
                        <= #[trigger] out@[j].deadline,
                forall|i: int, e: TimerEntry|
                    0 <= i < out@.len() && #[trigger] self@.contains(e) ==> #[trigger] out@[i].deadline
                        <= e.deadline,
            ensures
                self.wf(),
                m0 == self@.add(out@.to_multiset()),
                forall|i: int| 0 <= i < out@.len() ==> #[trigger] out@[i].deadline <= now,
                forall|i: int, j: int|
                    0 <= i < j < out@.len() ==> #[trigger] out@[i].deadline
                        <= #[trigger] out@[j].deadline,
                forall|e: TimerEntry| #[trigger] self@.contains(e) ==> e.deadline > now,
            decreases self@.len(),
        {
            let expired = match self.heap.peek() {
                None => {
                    proof {
                        broadcast use vstd::seq_lib::group_to_multiset_ensures;
                        broadcast use vstd::multiset::group_multiset_axioms;

                        assert(self.heap@ =~= Seq::<TimerEntry>::empty());
                        assert(self@.len() == 0);
                        assert forall|e: TimerEntry| #[trigger] self@.contains(e) implies e.deadline
                            > now by {
                            assert(self@.count(e) > 0);
                            assert(self@.count(e) <= self@.len());
                        }
                    }
                    false
                },
                Some(e) => {
                    if e.deadline <= now {
                        true
                    } else {
                        let ghost head = *e;
                        proof {
                            broadcast use vstd::seq_lib::group_to_multiset_ensures;
                            broadcast use vstd::multiset::group_multiset_axioms;

                            let s = self.heap@;
                            assert forall|x: TimerEntry| #[trigger] self@.contains(x) implies
                                x.deadline > now by {
                                assert(s.to_multiset().count(x) > 0);
                                assert(s.contains(x));
                                let k = choose|k: int| 0 <= k < s.len() && s[k] == x;
                                assert(s[0].key() <= s[k].key());
                                assert(head.deadline <= x.deadline);
                            }
                        }
                        false
                    }
                },
            };

            if !expired {
                break;
            }

            let ghost prev = self@;
            let ghost out_prev = out@;
            let popped = self.heap.pop();
            match popped {
                Some(x) => {
                    proof {
                        broadcast use vstd::seq_lib::group_to_multiset_ensures;
                        broadcast use vstd::multiset::group_multiset_axioms;

                        assert(is_min_of(prev, x));
                        assert(prev.contains(x));
                    }
                    out.push(x);
                    proof {
                        broadcast use vstd::seq_lib::group_to_multiset_ensures;
                        broadcast use vstd::multiset::group_multiset_axioms;

                        assert(out@ == out_prev.push(x));
                        assert(out@.to_multiset() == out_prev.to_multiset().insert(x));
                        assert(m0 =~= self@.add(out@.to_multiset()));
                        assert forall|i: int, e: TimerEntry|
                            0 <= i < out@.len() && #[trigger] self@.contains(e) implies
                            #[trigger] out@[i].deadline <= e.deadline by {
                            assert(prev.count(e) >= self@.count(e));
                            assert(prev.contains(e));
                            if i < out_prev.len() {
                                assert(out@[i] == out_prev[i]);
                            } else {
                                assert(out@[i] == x);
                                assert(x.key() <= e.key());
                            }
                        }
                        assert forall|i: int, j: int|
                            0 <= i < j < out@.len() implies #[trigger] out@[i].deadline
                            <= #[trigger] out@[j].deadline by {
                            if j < out_prev.len() {
                                assert(out@[i] == out_prev[i] && out@[j] == out_prev[j]);
                            } else {
                                assert(out@[j] == x);
                                assert(out_prev[i].deadline <= x.deadline);
                            }
                        }
                    }
                },
                None => {
                    // unreachable: the peek above saw an entry.
                },
            }
        }

        proof {
            if m0.len() == 0 {
                assert(out@.to_multiset().len() <= m0.len());
                assert(out@.len() == out@.to_multiset().len());
                assert(self@ =~= m0);
            }
        }
        out
    }
}

} // verus!
