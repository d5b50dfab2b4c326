//! The scheduler: the event loop's state machine.
//!
//! The scheduler owns the task table, the FIFO ready queue, the buffer of
//! pending spawns, the timer wheel and the I/O registration table. The
//! embedder runs the loop itself — it polls the computations and blocks
//! in the kernel — and drives this state machine through the steps below:
//! spawns and wakes append work, `process_pending` and the timer and I/O
//! steps move work into the ready queue, and `begin_poll`/`finish_poll`
//! bracket each poll of a task's computation.
//!
//! Waking is the scheduler's own operation here: a waker bound to a task
//! holds its [`TaskId`] and calling it is a [`Scheduler::wake`]. A stale
//! waker — one whose task has already resolved — may still enqueue its
//! id; the next `begin_poll` finds no entry under it and discards it
//! silently.

use std::collections::HashMap;
use std::collections::VecDeque;

use vstd::multiset::Multiset;
use vstd::prelude::*;

use crate::driver::{register_spec, unregister_spec, FdInterest, IoRegistry};
use crate::task::{Task, TaskId};
use crate::timer::{TimerEntry, TimerWheel};

verus! {

/// The scheduler's state, as the contracts speak of it: live tasks with
/// their "already queued" flags, the queues, the timers, the I/O table,
/// the task being polled, and the id allocator.
#[verifier::ext_equal]
pub ghost struct SchedView {
    /// Live task id to its `scheduled` flag.
    pub tasks: Map<u64, bool>,
    /// FIFO of task ids ready to be polled, front first.
    pub ready: Seq<u64>,
    /// Ids spawned while the ready queue was draining, oldest first.
    pub pending: Seq<u64>,
    /// Pending timer registrations.
    pub timers: Multiset<TimerEntry>,
    /// The I/O driver's registration table.
    pub io: Map<i32, FdInterest>,
    /// The id of the task currently being polled, if any.
    pub current: Option<u64>,
    /// Counter from which task ids are allocated; every id ever handed
    /// out is below it.
    pub next_id: u64,
}

/// The scheduler's invariant.
///
/// Its first two clauses are the queueing discipline: a live task's
/// `scheduled` flag is set exactly when its id sits in the ready queue,
/// and a live id sits there at most once. (Stale ids — tasks already
/// resolved — may appear, even repeatedly; ticks discard them.) The rest
/// pins the id allocator: everything the scheduler refers to was
/// allocated, pending ids are fresh and distinct, and the task being
/// polled is live.
pub open spec fn sched_inv(s: SchedView) -> bool {
    &&& forall|id: u64| #[trigger]
        s.tasks.contains_key(id) ==> (s.tasks[id] <==> s.ready.contains(id))
    &&& forall|i: int, j: int|
        0 <= i < j < s.ready.len() && s.tasks.contains_key(#[trigger] s.ready[i])
            ==> s.ready[i] != #[trigger] s.ready[j]
    &&& forall|id: u64| #[trigger] s.tasks.contains_key(id) ==> id < s.next_id
    &&& forall|i: int| 0 <= i < s.ready.len() ==> #[trigger] s.ready[i] < s.next_id
    &&& forall|i: int| 0 <= i < s.pending.len() ==> #[trigger] s.pending[i] < s.next_id
    &&& forall|i: int, j: int|
        0 <= i < j < s.pending.len() ==> #[trigger] s.pending[i] != #[trigger] s.pending[j]
    &&& forall|i: int|
        0 <= i < s.pending.len() ==> !s.tasks.contains_key(#[trigger] s.pending[i])
            && !s.ready.contains(s.pending[i])
    &&& match s.current {
        Some(id) => s.tasks.contains_key(id),
        None => true,
    }
    &&& forall|e: TimerEntry| #[trigger] s.timers.contains(e) ==> e.task.0 < s.next_id
    &&& forall|fd: i32| #[trigger] s.io.contains_key(fd) ==> s.io[fd].task.0 < s.next_id
}

/// What waking a task does: a live, not-yet-queued task has its flag set
/// and its id appended to the ready queue; a live queued task is left
/// alone; a pending spawn is left alone (installation will queue it); any
/// other allocated id is appended stale, for the next tick to discard;
/// an id never handed out is ignored.
pub open spec fn wake_spec(s: SchedView, id: u64) -> SchedView {
    if id >= s.next_id {
        s
    } else if s.tasks.contains_key(id) {
        if s.tasks[id] {
            s
        } else {
            SchedView { tasks: s.tasks.insert(id, true), ready: s.ready.push(id), ..s }
        }
    } else if s.pending.contains(id) {
        s
    } else {
        SchedView { ready: s.ready.push(id), ..s }
    }
}

/// The id of the task currently being polled; meaningful only while one
/// is.
pub open spec fn cur_of(s: SchedView) -> u64 {
    match s.current {
        Some(id) => id,
        None => 0,
    }
}

/// The timeout handed to the kernel wait for a nearest deadline
/// `deadline`: `0` once the deadline has passed, otherwise the remaining
/// milliseconds, saturated to the largest timeout the wait accepts.
pub open spec fn timeout_for(deadline: u64, now: u64) -> i32 {
    if deadline <= now {
        0
    } else if deadline - now > i32::MAX {
        i32::MAX
    } else {
        (deadline - now) as i32
    }
}

/// What spawning does: the freshly allocated id joins the pending buffer;
/// it enters the task table and the ready queue only at the next tick.
pub open spec fn spawn_spec(s: SchedView) -> SchedView {
    SchedView {
        pending: s.pending.push(s.next_id),
        next_id: (s.next_id + 1) as u64,
        ..s
    }
}

/// What seeding the root task does: unlike a spawn, the root enters the
/// task table and the ready queue directly.
pub open spec fn seed_spec(s: SchedView) -> SchedView {
    SchedView {
        tasks: s.tasks.insert(s.next_id, true),
        ready: s.ready.push(s.next_id),
        next_id: (s.next_id + 1) as u64,
        ..s
    }
}

/// Single-threaded task scheduler.
pub struct Scheduler {
    /// Stores all live tasks keyed by their id.
    tasks: HashMap<u64, Task>,
    /// Queue of task ids ready to be polled.
    ready: VecDeque<u64>,
    /// Holds ids of tasks that are spawned while the scheduler is
    /// actively draining the ready queue; transferred on each tick.
    pending: Vec<u64>,
    /// A priority queue of timers associated with tasks, keyed by their
    /// scheduled wake-up time.
    timers: TimerWheel,
    /// Registrations for I/O readiness, waking tasks when file
    /// descriptors become ready.
    io: IoRegistry,
    /// The id of the task currently being polled, if any.
    current: Option<u64>,
    /// Counter from which task ids are allocated.
    next_id: u64,
}

impl View for Scheduler {
    type V = SchedView;

    closed spec fn view(&self) -> SchedView {
        SchedView {
            tasks: Map::new(
                |id: u64| self.tasks@.contains_key(id),
                |id: u64| self.tasks@[id].scheduled,
            ),
            ready: self.ready@,
            pending: self.pending@,
            timers: self.timers@,
            io: self.io@,
            current: self.current,
            next_id: self.next_id,
        }
    }
}

impl Scheduler {
    /// The representation invariant: the abstract invariant, plus the
    /// backing structures' own well-formedness.
    pub closed spec fn inv(&self) -> bool {
        &&& sched_inv(self@)
        &&& self.timers.wf()
        &&& forall|k: u64| #[trigger]
            self.tasks@.contains_key(k) ==> self.tasks@[k].id.0 == k
    }

    /// Creates a new `Scheduler` with no work.
    pub fn new() -> (r: Self)
        ensures
            r.inv(),
            r@.tasks == Map::<u64, bool>::empty(),
            r@.ready == Seq::<u64>::empty(),
            r@.pending == Seq::<u64>::empty(),
            r@.timers == Multiset::<TimerEntry>::empty(),
            r@.io == Map::<i32, FdInterest>::empty(),
            r@.current == None::<u64>,
            r@.next_id == 0u64,
    {
        broadcast use vstd::std_specs::hash::group_hash_axioms;

        let r = Scheduler {
            tasks: HashMap::new(),
            ready: VecDeque::new(),
            pending: Vec::new(),
            timers: TimerWheel::new(),
            io: IoRegistry::new(),
            current: None,
            next_id: 0,
        };
        proof {
            assert(r@.tasks =~= Map::<u64, bool>::empty());
        }
        r
    }

    /// Returns `true` if the runtime has no remaining tasks to execute:
    /// no live tasks and no spawned tasks waiting to be installed. An
    /// empty ready queue alone is not idleness — tasks may be blocked on
    /// timers or I/O.
    pub fn is_idle(&self) -> (r: bool)
        ensures
            r == (self@.tasks.dom().is_empty() && self@.pending.len() == 0),
    {
        broadcast use vstd::std_specs::hash::group_hash_axioms;

        let r = self.tasks.is_empty() && self.pending.is_empty();
        proof {
            assert(self@.tasks.dom() =~= self.tasks@.dom());
            if self.tasks@.len() == 0 {
                assert(self.tasks@.dom() =~= Set::<u64>::empty());
            }
            if self.tasks@.dom().is_empty() {
                assert(self.tasks@.dom().len() == 0);
            }
        }
        r
    }

    /// Whether any file descriptor is registered with the I/O driver:
    /// when none is, the event loop skips the kernel wait entirely
    /// instead of blocking on it.
    pub fn has_registered_fds(&self) -> (r: bool)
        ensures
            r == !self@.io.dom().is_empty(),
    {
        !self.io.is_empty()
    }

    /// The id of the task currently being polled, between
    /// [`Scheduler::begin_poll`] and [`Scheduler::finish_poll`], if any.
    pub fn current_task(&self) -> (r: Option<TaskId>)
        ensures
            match (r, self@.current) {
                (None, None) => true,
                (Some(t), Some(i)) => t.0 == i,
                _ => false,
            },
    {
        match self.current {
            Some(id) => Some(TaskId(id)),
            None => None,
        }
    }

    /// The id the next created task will receive.
    pub fn next_task_id(&self) -> (r: u64)
        ensures
            r == self@.next_id,
    {
        self.next_id
    }

    /// Marks the task associated with the provided id as ready to be
    /// polled: the operation a waker performs. Waking an already queued
    /// task, a pending spawn, or a task long gone is safe; see
    /// [`wake_spec`] for what each case does.
    pub fn wake(&mut self, id: TaskId)
        requires
            old(self).inv(),
        ensures
            final(self).inv(),
            final(self)@ == wake_spec(old(self)@, id.0),
    {
        broadcast use vstd::std_specs::hash::group_hash_axioms;

        let ghost s0 = self@;
        if id.0 >= self.next_id {
            return;
        }
        let found = match self.tasks.get(&id.0) {
            Some(t) => Some(t.scheduled),
            None => None,
        };
        match found {
            Some(true) => {
                proof {
                    assert(self@ =~= wake_spec(s0, id.0));
                }
            },
            Some(false) => {
                self.tasks.insert(id.0, Task { id, scheduled: true });
                self.ready.push_back(id.0);
                proof {
                    assert(self@.tasks =~= s0.tasks.insert(id.0, true));
                    assert(self@ =~= wake_spec(s0, id.0));
                    assert(self.inv()) by {
                        lemma_wake_preserves_inv(s0, id.0);
                    }
                }
            },
            None => {
                let in_pending = self.pending_contains(id.0);
                if !in_pending {
                    self.ready.push_back(id.0);
                    proof {
                        assert(self@ =~= wake_spec(s0, id.0));
                        assert(self.inv()) by {
                            lemma_wake_preserves_inv(s0, id.0);
                        }
                    }
                } else {
                    proof {
                        assert(self@ =~= wake_spec(s0, id.0));
                    }
                }
            },
        }
    }

    /// Whether `id` sits in the pending-spawn buffer.
    fn pending_contains(&self, id: u64) -> (r: bool)
        ensures
            r == self@.pending.contains(id),
    {
        let mut k: usize = 0;
        let n = self.pending.len();
        while k < n
            invariant
                k <= n,
                n == self@.pending.len(),
                forall|i: int| 0 <= i < k ==> #[trigger] self@.pending[i] != id,
            decreases n - k,
        {
            if self.pending[k] == id {
                return true;
            }
            k += 1;
        }
        proof {
            if self@.pending.contains(id) {
                let w = choose|w: int| 0 <= w < self@.pending.len() && self@.pending[w] == id;
                assert(self@.pending[w] != id);
            }
        }
        false
    }

    /// Queues a freshly spawned task, returning its new id. The task is
    /// installed into the task table and the ready queue at the start of
    /// the next tick, never in the middle of the current one.
    pub fn spawn_task(&mut self) -> (r: TaskId)
        requires
            old(self).inv(),
            old(self)@.next_id < u64::MAX,
        ensures
            final(self).inv(),
            r.0 == old(self)@.next_id,
            final(self)@ == spawn_spec(old(self)@),
    {
        let ghost s0 = self@;
        let id = TaskId::new(&mut self.next_id);
        self.pending.push(id.0);
        proof {
            assert(self@ =~= spawn_spec(s0));
            assert(self.inv()) by {
                lemma_spawn_preserves_inv(s0);
            }
        }
        id
    }

    /// Installs the root task directly into the task table and the ready
    /// queue, returning its id. The root is what `block_on` seeds before
    /// entering the loop.
    pub fn seed_root(&mut self) -> (r: TaskId)
        requires
            old(self).inv(),
            old(self)@.next_id < u64::MAX,
        ensures
            final(self).inv(),
            r.0 == old(self)@.next_id,
            final(self)@ == seed_spec(old(self)@),
    {
        broadcast use vstd::std_specs::hash::group_hash_axioms;

        let ghost s0 = self@;
        let id = TaskId::new(&mut self.next_id);
        self.tasks.insert(id.0, Task { id, scheduled: true });
        self.ready.push_back(id.0);
        proof {
            assert(self@.tasks =~= s0.tasks.insert(id.0, true));
            assert(self@ =~= seed_spec(s0));
            assert(self.inv()) by {
                lemma_seed_preserves_inv(s0);
            }
        }
        id
    }

    /// Takes the next task to poll off the ready queue, discarding stale
    /// ids along the way. The returned task has its `scheduled` flag
    /// cleared and becomes the current task until [`Scheduler::finish_poll`];
    /// the embedder polls its computation in between. Returns [`None`]
    /// when nothing is ready.
    pub fn begin_poll(&mut self) -> (r: Option<TaskId>)
        requires
            old(self).inv(),
            old(self)@.current is None,
        ensures
            final(self).inv(),
            ({
                let (s1, rid) = begin_poll_spec(old(self)@);
                &&& final(self)@ == s1
                &&& match (r, rid) {
                    (None, None) => true,
                    (Some(t), Some(i)) => t.0 == i,
                    _ => false,
                }
            }),
    {
        broadcast use vstd::std_specs::hash::group_hash_axioms;

        loop
            invariant
                self.inv(),
                self@.current is None,
                begin_poll_spec(self@) == begin_poll_spec(old(self)@),
            decreases self@.ready.len(),
        {
            let ghost s_cur = self@;
            match self.ready.pop_front() {
                None => {
                    proof {
                        assert(s_cur.ready.len() == 0);
                        assert(begin_poll_spec(s_cur) == (s_cur, None::<u64>));
                        assert(self@ =~= s_cur);
                    }
                    return None;
                },
                Some(id) => {
                    let live = self.tasks.contains_key(&id);
                    if live {
                        let ghost (starget, rid) = begin_poll_spec(s_cur);
                        self.tasks.insert(id, Task::new(TaskId(id)));
                        self.current = Some(id);
                        proof {
                            lemma_begin_poll_props(s_cur);
                            assert(s_cur.ready[0] == id);
                            assert(rid == Some(id));
                            assert(self@.tasks =~= s_cur.tasks.insert(id, false));
                            assert(self@ =~= starget);
                        }
                        return Some(TaskId(id));
                    } else {
                        proof {
                            assert(s_cur.ready[0] == id);
                            assert(!s_cur.tasks.contains_key(id));
                            lemma_drop_stale_preserves_inv(s_cur);
                            assert(self@ =~= SchedView { ready: s_cur.ready.drop_first(), ..s_cur });
                            assert(begin_poll_spec(self@) == begin_poll_spec(s_cur));
                        }
                    }
                },
            }
        }
    }

    /// Handles all pending spawned tasks, installing each into the task
    /// table and queueing it to be polled on this tick, oldest spawn
    /// first.
    pub fn process_pending(&mut self)
        requires
            old(self).inv(),
        ensures
            final(self).inv(),
            final(self)@ == process_pending_spec(old(self)@),
    {
        broadcast use vstd::std_specs::hash::group_hash_axioms;

        let n = self.pending.len();
        let mut k: usize = 0;
        while k < n
            invariant
                k <= n,
                n == old(self)@.pending.len(),
                self@.pending == old(self)@.pending,
                self@.timers == old(self)@.timers,
                self@.io == old(self)@.io,
                self@.current == old(self)@.current,
                self@.next_id == old(self)@.next_id,
                self.timers.wf(),
                forall|x: u64| #[trigger]
                    self.tasks@.contains_key(x) ==> self.tasks@[x].id.0 == x,
                self@.ready == old(self)@.ready + old(self)@.pending.take(k as int),
                self@.tasks == install_tasks(old(self)@.tasks, old(self)@.pending.take(k as int)),
            decreases n - k,
        {
            broadcast use vstd::std_specs::hash::group_hash_axioms;

            let ghost s_cur = self@;
            let ghost s0 = old(self)@;
            let id = self.pending[k];
            self.tasks.insert(id, Task { id: TaskId(id), scheduled: true });
            self.ready.push_back(id);
            k += 1;
            proof {
                let taken = s0.pending.take(k as int);
                assert(taken =~= s0.pending.take(k as int - 1).push(id));
                assert(self@.ready =~= s0.ready + taken);
                assert forall|x: u64| #[trigger] taken.contains(x) implies (s0.pending.take(
                    k as int - 1,
                ).contains(x) || x == id) by {
                    let w = choose|w: int| 0 <= w < taken.len() && taken[w] == x;
                    if w < k - 1 {
                        assert(s0.pending.take(k as int - 1)[w] == x);
                    }
                }
                assert forall|x: u64| s0.pending.take(k as int - 1).contains(x) implies
                    #[trigger] taken.contains(x) by {
                    let w = choose|w: int|
                        0 <= w < k - 1 && #[trigger] s0.pending.take(k as int - 1)[w] == x;
                    assert(taken[w] == x);
                }
                assert(taken.contains(id)) by {
                    assert(taken[k as int - 1] == id);
                }
                assert(self@.tasks =~= s_cur.tasks.insert(id, true));
                assert(self@.tasks =~= install_tasks(s0.tasks, taken));
            }
        }
        let ghost s0 = old(self)@;
        proof {
            assert(s0.pending.take(n as int) =~= s0.pending);
        }
        self.pending.clear();
        proof {
            assert(self@ =~= process_pending_spec(s0));
            lemma_process_pending_preserves_inv(s0);
        }
    }

    /// Processes all timers that have expired by `now`, waking the task
    /// of each in deadline order. Expired entries leave the wheel; a
    /// woken task whose entry went stale is discarded by the next tick.
    pub fn process_timers(&mut self, now: u64)
        requires
            old(self).inv(),
        ensures
            final(self).inv(),
            forall|e: TimerEntry| #[trigger]
                final(self)@.timers.count(e) == (if e.deadline > now {
                    old(self)@.timers.count(e)
                } else {
                    0
                }),
            final(self)@.tasks.dom() == old(self)@.tasks.dom(),
            final(self)@.pending == old(self)@.pending,
            final(self)@.io == old(self)@.io,
            final(self)@.current == old(self)@.current,
            final(self)@.next_id == old(self)@.next_id,
            forall|id: u64| #[trigger]
                old(self)@.tasks.contains_key(id) && old(self)@.tasks[id] ==> final(self)@.tasks[id],
            forall|id: u64| #[trigger]
                final(self)@.tasks.contains_key(id) && final(self)@.tasks[id] && !old(self)@.tasks[id] ==> exists|e: TimerEntry|
                    {
                        &&& #[trigger] old(self)@.timers.contains(e)
                        &&& e.deadline <= now
                        &&& e.task.0 == id
                    },
            forall|e: TimerEntry| #[trigger]
                old(self)@.timers.contains(e) && e.deadline <= now && final(self)@.tasks.contains_key(e.task.0) ==> final(self)@.tasks[e.task.0],
            old(self)@.ready.is_prefix_of(final(self)@.ready),
            exists|es: Seq<TimerEntry>|
                {
                    &&& forall|i: int| 0 <= i < es.len() ==> #[trigger] es[i].deadline <= now
                    &&& forall|i: int, j: int|
                        0 <= i < j < es.len() ==> #[trigger] es[i].deadline
                            <= #[trigger] es[j].deadline
                    &&& old(self)@.timers == final(self)@.timers.add(#[trigger] es.to_multiset())
                    &&& final(self)@ == wake_entries_spec(
                        (SchedView { timers: final(self)@.timers, ..old(self)@ }),
                        es,
                    )
                },
    {
        broadcast use vstd::seq_lib::group_to_multiset_ensures;
        broadcast use vstd::multiset::group_multiset_axioms;

        let expired = self.timers.drain_expired(now);
        proof {
            assert(self@ =~= SchedView { timers: self.timers@, ..old(self)@ });
            assert forall|i: int| 0 <= i < expired@.len() implies old(self)@.timers.contains(
                #[trigger] expired@[i],
            ) && expired@[i].deadline <= now by {
                assert(expired@.contains(expired@[i]));
                assert(expired@.to_multiset().count(expired@[i]) > 0);
                assert(old(self)@.timers.count(expired@[i]) > 0);
            }
            assert forall|e: TimerEntry| #[trigger] self@.timers.count(e) == (if e.deadline
                > now {
                old(self)@.timers.count(e)
            } else {
                0
            }) by {
                assert(old(self)@.timers.count(e) == self@.timers.count(e)
                    + expired@.to_multiset().count(e));
                if e.deadline > now {
                    if expired@.to_multiset().count(e) > 0 {
                        assert(expired@.contains(e));
                        let w = choose|w: int| 0 <= w < expired@.len() && expired@[w] == e;
                        assert(expired@[w].deadline <= now);
                    }
                } else {
                    if self@.timers.count(e) > 0 {
                        assert(self@.timers.contains(e));
                    }
                }
            }
            assert forall|e: TimerEntry| #[trigger] self@.timers.contains(e) implies e.task.0
                < self@.next_id by {
                assert(old(self)@.timers.count(e) >= self@.timers.count(e));
                assert(old(self)@.timers.contains(e));
            }
            assert(self.inv());
        }
        let n = expired.len();
        let mut k: usize = 0;
        while k < n
            invariant
                k <= n,
                n == expired@.len(),
                old(self).inv(),
                self.inv(),
                forall|i: int| 0 <= i < n ==> old(self)@.timers.contains(#[trigger] expired@[i])
                    && expired@[i].deadline <= now,
                forall|e: TimerEntry| #[trigger]
                    old(self)@.timers.count(e) == self@.timers.count(e)
                        + expired@.to_multiset().count(e),
                forall|e: TimerEntry| #[trigger]
                    self@.timers.count(e) == (if e.deadline > now {
                        old(self)@.timers.count(e)
                    } else {
                        0
                    }),
                self@ == wake_entries_spec(
                    (SchedView { timers: self@.timers, ..old(self)@ }),
                    expired@.take(k as int),
                ),
                self@.pending == old(self)@.pending,
                self@.io == old(self)@.io,
                self@.current == old(self)@.current,
                self@.next_id == old(self)@.next_id,
                self@.tasks.dom() == old(self)@.tasks.dom(),
                forall|id: u64| #[trigger]
                    old(self)@.tasks.contains_key(id) && old(self)@.tasks[id] ==> self@.tasks[id],
                forall|id: u64| #[trigger]
                    self@.tasks.contains_key(id) && self@.tasks[id] && !old(self)@.tasks[id]
                        ==> exists|i: int| 0 <= i < k && #[trigger] expired@[i].task.0 == id,
                forall|i: int|
                    0 <= i < k && self@.tasks.contains_key(#[trigger] expired@[i].task.0)
                        ==> self@.tasks[expired@[i].task.0],
                old(self)@.ready.is_prefix_of(self@.ready),
            decreases n - k,
        {
            let ghost s_cur = self@;
            let e = expired[k];
            proof {
                assert(old(self)@.timers.contains(expired@[k as int]));
                assert(e.task.0 < old(self)@.next_id);
            }
            self.wake(e.task);
            k += 1;
            proof {
                let s_new = wake_spec(s_cur, e.task.0);
                assert(self@ == s_new);
                assert(self@.tasks.dom() =~= s_cur.tasks.dom());
                let smid = SchedView { timers: self@.timers, ..old(self)@ };
                assert(self@.timers == s_cur.timers);
                assert(smid == (SchedView { timers: s_cur.timers, ..old(self)@ }));
                assert(e == expired@[k as int - 1]);
                assert(s_cur == wake_entries_spec(smid, expired@.take(k as int - 1)));
                lemma_wake_entries_push(smid, expired@.take(k as int - 1), e);
                assert(wake_entries_spec(smid, expired@.take(k as int - 1).push(e)) == wake_spec(
                    s_cur,
                    e.task.0,
                ));
                assert(expired@.take(k as int) =~= expired@.take(k as int - 1).push(e));
                assert(self@ == wake_entries_spec(smid, expired@.take(k as int)));
                assert forall|id: u64| #[trigger]
                    self@.tasks.contains_key(id) && self@.tasks[id] && !old(self)@.tasks[id]
                    implies exists|i: int| 0 <= i < k && #[trigger] expired@[i].task.0 == id by {
                    if s_cur.tasks.contains_key(id) && s_cur.tasks[id] {
                        let w = choose|w: int|
                            0 <= w < k - 1 && #[trigger] expired@[w].task.0 == id;
                        assert(0 <= w < k && expired@[w].task.0 == id);
                    } else {
                        assert(expired@[k as int - 1].task.0 == id);
                    }
                }
                assert(old(self)@.ready.is_prefix_of(self@.ready)) by {
                    if s_cur.ready.len() < self@.ready.len() {
                        assert(self@.ready == s_cur.ready.push(e.task.0));
                        assert(old(self)@.ready.is_prefix_of(s_cur.ready));
                        assert(old(self)@.ready =~= self@.ready.take(old(self)@.ready.len() as int));
                    }
                }
            }
        }
        proof {
            assert(expired@.take(n as int) =~= expired@);
            assert(old(self)@.timers =~= self@.timers.add(expired@.to_multiset()));
            assert(self@ == wake_entries_spec(
                (SchedView { timers: self@.timers, ..old(self)@ }),
                expired@,
            ));
            assert forall|id: u64| #[trigger]
                self@.tasks.contains_key(id) && self@.tasks[id] && !old(self)@.tasks[id] implies
                exists|e: TimerEntry|
                {
                    &&& #[trigger] old(self)@.timers.contains(e)
                    &&& e.deadline <= now
                    &&& e.task.0 == id
                } by {
                let w = choose|w: int| 0 <= w < n && #[trigger] expired@[w].task.0 == id;
                let e = expired@[w];
                assert(old(self)@.timers.contains(e) && e.deadline <= now && e.task.0 == id);
            }
            assert forall|e: TimerEntry| #[trigger]
                old(self)@.timers.contains(e) && e.deadline <= now && self@.tasks.contains_key(
                e.task.0,
            ) implies self@.tasks[e.task.0] by {
                // the entry was drained, so its task was woken in the loop.
                assert(self@.timers.count(e) == 0);
                assert(old(self)@.timers.count(e) == self@.timers.count(e)
                    + expired@.to_multiset().count(e));
                assert(expired@.to_multiset().count(e) > 0);
                assert(expired@.contains(e));
                let w = choose|w: int| 0 <= w < expired@.len() && expired@[w] == e;
                assert(self@.tasks.contains_key(expired@[w].task.0));
            }
        }
    }

    /// Wakes the task registered for each file descriptor in `fds`, the
    /// descriptors the kernel reported ready. Registrations stay: in
    /// edge-triggered mode the consumer drains the descriptor and decides
    /// itself when to re-arm.
    pub fn handle_io_events(&mut self, fds: &Vec<i32>)
        requires
            old(self).inv(),
        ensures
            final(self).inv(),
            final(self)@ == handle_io_spec(old(self)@, fds@),
            final(self)@.io == old(self)@.io,
            final(self)@.timers == old(self)@.timers,
            final(self)@.pending == old(self)@.pending,
            final(self)@.current == old(self)@.current,
            final(self)@.next_id == old(self)@.next_id,
            final(self)@.tasks.dom() == old(self)@.tasks.dom(),
            forall|id: u64| #[trigger]
                old(self)@.tasks.contains_key(id) && old(self)@.tasks[id] ==> final(self)@.tasks[id],
            forall|id: u64| #[trigger]
                final(self)@.tasks.contains_key(id) && final(self)@.tasks[id] && !old(self)@.tasks[id] ==> exists|i: int|
                    {
                        &&& 0 <= i < fds@.len()
                        &&& old(self)@.io.contains_key(#[trigger] fds@[i])
                        &&& old(self)@.io[fds@[i]].task.0 == id
                    },
            forall|i: int|
                0 <= i < fds@.len() && old(self)@.io.contains_key(#[trigger] fds@[i]) && final(self)@.tasks.contains_key(old(self)@.io[fds@[i]].task.0) ==> final(self)@.tasks[old(self)@.io[fds@[i]].task.0],
            old(self)@.ready.is_prefix_of(final(self)@.ready),
    {
        let n = fds.len();
        let mut k: usize = 0;
        while k < n
            invariant
                k <= n,
                n == fds@.len(),
                self.inv(),
                self@ == handle_io_spec(old(self)@, fds@.take(k as int)),
                self@.timers == old(self)@.timers,
                self@.pending == old(self)@.pending,
                self@.io == old(self)@.io,
                self@.current == old(self)@.current,
                self@.next_id == old(self)@.next_id,
                self@.tasks.dom() == old(self)@.tasks.dom(),
                forall|id: u64| #[trigger]
                    old(self)@.tasks.contains_key(id) && old(self)@.tasks[id] ==> self@.tasks[id],
                forall|id: u64| #[trigger]
                    self@.tasks.contains_key(id) && self@.tasks[id] && !old(self)@.tasks[id] ==> exists|
                    i: int,
                |
                    {
                        &&& 0 <= i < k
                        &&& old(self)@.io.contains_key(#[trigger] fds@[i])
                        &&& old(self)@.io[fds@[i]].task.0 == id
                    },
                forall|i: int|
                    0 <= i < k && old(self)@.io.contains_key(#[trigger] fds@[i]) && self@.tasks.contains_key(
                        old(self)@.io[fds@[i]].task.0,
                    ) ==> self@.tasks[old(self)@.io[fds@[i]].task.0],
                old(self)@.ready.is_prefix_of(self@.ready),
            decreases n - k,
        {
            let ghost s_cur = self@;
            let fd = fds[k];
            match self.io.lookup(fd) {
                Some(fi) => {
                    self.wake(fi.task);
                    proof {
                        let s_new = wake_spec(s_cur, fi.task.0);
                        assert(self@ == s_new);
                        assert(self@.tasks.dom() =~= s_cur.tasks.dom());
                        assert(self@ == io_event_spec(s_cur, fd));
                    }
                },
                None => {
                    proof {
                        assert(self@ == io_event_spec(s_cur, fd));
                    }
                },
            }
            k += 1;
            proof {
                lemma_handle_io_push(old(self)@, fds@.take(k as int - 1), fd);
                assert(fds@.take(k as int) =~= fds@.take(k as int - 1).push(fd));
                assert(self@ == handle_io_spec(old(self)@, fds@.take(k as int)));
                assert forall|id: u64| #[trigger]
                    self@.tasks.contains_key(id) && self@.tasks[id] && !old(self)@.tasks[id] implies
                    exists|i: int|
                    {
                        &&& 0 <= i < k
                        &&& old(self)@.io.contains_key(#[trigger] fds@[i])
                        &&& old(self)@.io[fds@[i]].task.0 == id
                    } by {
                    if s_cur.tasks.contains_key(id) && s_cur.tasks[id] {
                        let w = choose|w: int|
                            {
                                &&& 0 <= w < k - 1
                                &&& old(self)@.io.contains_key(#[trigger] fds@[w])
                                &&& old(self)@.io[fds@[w]].task.0 == id
                            };
                        assert(0 <= w < k && old(self)@.io.contains_key(fds@[w]) && old(self)@.io[fds@[w]].task.0
                            == id);
                    } else {
                        assert(old(self)@.io.contains_key(fds@[k as int - 1]) && old(self)@.io[fds@[k as int
                            - 1]].task.0 == id);
                    }
                }
                assert(old(self)@.ready.is_prefix_of(self@.ready)) by {
                    if s_cur.ready.len() < self@.ready.len() {
                        assert(old(self)@.ready.is_prefix_of(s_cur.ready));
                        assert(old(self)@.ready =~= self@.ready.take(old(self)@.ready.len() as int));
                    }
                }
            }
        }
        proof {
            assert(fds@.take(n as int) =~= fds@);
        }
    }

    /// Registers a timer at `deadline` for the task currently being
    /// polled: the suspension a sleep performs on its first poll.
    pub fn register_timer(&mut self, deadline: u64)
        requires
            old(self).inv(),
            old(self)@.current is Some,
        ensures
            final(self).inv(),
            final(self)@ == (SchedView {
                timers: old(self)@.timers.insert(
                    TimerEntry { deadline, task: TaskId(cur_of(old(self)@)) },
                ),
                ..old(self)@
            }),
    {
        broadcast use vstd::multiset::group_multiset_axioms;

        let ghost s0 = self@;
        let id = self.current.unwrap();
        self.timers.register(deadline, TaskId(id));
        proof {
            assert(self@ =~= SchedView {
                timers: s0.timers.insert(TimerEntry { deadline, task: TaskId(id) }),
                ..s0
            });
            let fresh = TimerEntry { deadline, task: TaskId(id) };
            assert(s0.tasks.contains_key(id));
            assert forall|e: TimerEntry| #[trigger] self@.timers.contains(e) implies e.task.0
                < self@.next_id by {
                if e != fresh {
                    assert(s0.timers.count(e) > 0);
                    assert(s0.timers.contains(e));
                }
            }
        }
    }

    /// Registers the file descriptor `fd` with the I/O driver's table,
    /// with interest mask `events`, on behalf of the task currently being
    /// polled: the suspension a blocked I/O operation performs.
    pub fn register_fd(&mut self, fd: i32, events: u32)
        requires
            old(self).inv(),
            old(self)@.current is Some,
        ensures
            final(self).inv(),
            final(self)@ == (SchedView {
                io: register_spec(old(self)@.io, fd, events, TaskId(cur_of(old(self)@))),
                ..old(self)@
            }),
    {
        let ghost s0 = self@;
        let id = self.current.unwrap();
        self.io.register(fd, events, TaskId(id));
        proof {
            assert(self@ =~= SchedView {
                io: register_spec(s0.io, fd, events, TaskId(id)),
                ..s0
            });
            assert forall|f: i32| #[trigger] self@.io.contains_key(f) implies self@.io[f].task.0
                < self@.next_id by {
                if f != fd {
                    assert(s0.io.contains_key(f));
                }
            }
        }
    }

    /// Removes the registration of `fd`, if any: performed when the
    /// wrapper owning the descriptor is dropped, before the descriptor is
    /// closed.
    pub fn unregister_fd(&mut self, fd: i32)
        requires
            old(self).inv(),
        ensures
            final(self).inv(),
            final(self)@ == (SchedView { io: unregister_spec(old(self)@.io, fd), ..old(self)@ }),
    {
        let ghost s0 = self@;
        self.io.unregister(fd);
        proof {
            assert(self@ =~= SchedView { io: unregister_spec(s0.io, fd), ..s0 });
        }
    }

    /// The timeout to hand the kernel wait: `-1` (block indefinitely)
    /// when no timer is pending, otherwise the time to the nearest
    /// deadline in milliseconds — `0` if it already passed, saturated if
    /// it does not fit.
    pub fn poll_timeout(&self, now: u64) -> (r: i32)
        requires
            self.inv(),
        ensures
            self@.timers.len() == 0 ==> r == -1,
            self@.timers.len() > 0 ==> exists|e: TimerEntry|
                {
                    &&& #[trigger] self@.timers.contains(e)
                    &&& r == timeout_for(e.deadline, now)
                    &&& forall|e2: TimerEntry| #[trigger]
                        self@.timers.contains(e2) ==> e.deadline <= e2.deadline
                },
    {
        match self.timers.peek_deadline() {
            None => -1,
            Some(d) => {
                proof {
                    let e = choose|e: TimerEntry|
                        #[trigger] self@.timers.contains(e) && e.deadline == d;
                    assert(self@.timers.contains(e) && timeout_for(e.deadline, now)
                        == timeout_for(d, now));
                }
                if d <= now {
                    0
                } else {
                    let diff = d - now;
                    if diff > i32::MAX as u64 {
                        i32::MAX
                    } else {
                        diff as i32
                    }
                }
            },
        }
    }

    /// Ends the poll of the current task: a completed task leaves the
    /// task table (any wakers still holding its id turn stale), a
    /// still-pending one stays for future wakes.
    pub fn finish_poll(&mut self, id: TaskId, completed: bool)
        requires
            old(self).inv(),
            old(self)@.current == Some(id.0),
        ensures
            final(self).inv(),
            final(self)@ == finish_poll_spec(old(self)@, id.0, completed),
    {
        broadcast use vstd::std_specs::hash::group_hash_axioms;

        let ghost s0 = self@;
        self.current = None;
        if completed {
            self.tasks.remove(&id.0);
            proof {
                assert(self@.tasks =~= s0.tasks.remove(id.0));
            }
        }
        proof {
            assert(self@ =~= finish_poll_spec(s0, id.0, completed));
            lemma_finish_poll_preserves_inv(s0, id.0, completed);
        }
    }
}

/// The state after waking the task of each entry of `es` in turn, oldest
/// first: what processing a drained batch of expired timers does.
pub open spec fn wake_entries_spec(s: SchedView, es: Seq<TimerEntry>) -> SchedView
    decreases es.len(),
{
    if es.len() == 0 {
        s
    } else {
        wake_entries_spec(wake_spec(s, es[0].task.0), es.drop_first())
    }
}

/// Unrolling [`wake_entries_spec`] from the back.
pub proof fn lemma_wake_entries_push(s: SchedView, es: Seq<TimerEntry>, e: TimerEntry)
    ensures
        wake_entries_spec(s, es.push(e)) == wake_spec(wake_entries_spec(s, es), e.task.0),
    decreases es.len(),
{
    if es.len() == 0 {
        assert(es.push(e)[0] == e);
        assert(es.push(e).drop_first() =~= es);
        assert(wake_entries_spec(s, es.push(e)) == wake_entries_spec(
            wake_spec(s, e.task.0),
            es,
        ));
        assert(wake_entries_spec(wake_spec(s, e.task.0), es) == wake_spec(s, e.task.0));
        assert(wake_entries_spec(s, es) == s);
    } else {
        let w = wake_spec(s, es[0].task.0);
        assert(es.push(e)[0] == es[0]);
        assert(es.push(e).drop_first() =~= es.drop_first().push(e));
        assert(wake_entries_spec(s, es.push(e)) == wake_entries_spec(
            w,
            es.drop_first().push(e),
        ));
        lemma_wake_entries_push(w, es.drop_first(), e);
        assert(wake_entries_spec(s, es) == wake_entries_spec(w, es.drop_first()));
    }
}

/// One step of I/O dispatch: a registered descriptor wakes its bound
/// task, an unknown one is ignored.
pub open spec fn io_event_spec(s: SchedView, fd: i32) -> SchedView {
    if s.io.contains_key(fd) {
        wake_spec(s, s.io[fd].task.0)
    } else {
        s
    }
}

/// The state after dispatching the readiness events for `fds`, in order.
pub open spec fn handle_io_spec(s: SchedView, fds: Seq<i32>) -> SchedView
    decreases fds.len(),
{
    if fds.len() == 0 {
        s
    } else {
        handle_io_spec(io_event_spec(s, fds[0]), fds.drop_first())
    }
}

/// Unrolling [`handle_io_spec`] from the back.
pub proof fn lemma_handle_io_push(s: SchedView, fds: Seq<i32>, fd: i32)
    ensures
        handle_io_spec(s, fds.push(fd)) == io_event_spec(handle_io_spec(s, fds), fd),
    decreases fds.len(),
{
    if fds.len() == 0 {
        assert(fds.push(fd)[0] == fd);
        assert(fds.push(fd).drop_first() =~= fds);
        assert(handle_io_spec(s, fds.push(fd)) == handle_io_spec(io_event_spec(s, fd), fds));
        assert(handle_io_spec(io_event_spec(s, fd), fds) == io_event_spec(s, fd));
        assert(handle_io_spec(s, fds) == s);
    } else {
        let w = io_event_spec(s, fds[0]);
        assert(fds.push(fd)[0] == fds[0]);
        assert(fds.push(fd).drop_first() =~= fds.drop_first().push(fd));
        assert(handle_io_spec(s, fds.push(fd)) == handle_io_spec(w, fds.drop_first().push(fd)));
        lemma_handle_io_push(w, fds.drop_first(), fd);
        assert(handle_io_spec(s, fds) == handle_io_spec(w, fds.drop_first()));
    }
}

/// The task table after installing every id of `ids` as a live, already
/// scheduled task.
pub open spec fn install_tasks(t: Map<u64, bool>, ids: Seq<u64>) -> Map<u64, bool> {
    Map::new(
        |id: u64| t.contains_key(id) || ids.contains(id),
        |id: u64|
            if ids.contains(id) {
                true
            } else {
                t[id]
            },
    )
}

/// What a tick's first step does: every pending spawn moves into the task
/// table, scheduled, and its id is appended to the ready queue, oldest
/// spawn first; the pending buffer empties.
pub open spec fn process_pending_spec(s: SchedView) -> SchedView {
    SchedView {
        tasks: install_tasks(s.tasks, s.pending),
        ready: s.ready + s.pending,
        pending: Seq::<u64>::empty(),
        ..s
    }
}

/// Installing the pending spawns preserves the scheduler invariant.
pub proof fn lemma_process_pending_preserves_inv(s: SchedView)
    requires
        sched_inv(s),
    ensures
        sched_inv(process_pending_spec(s)),
{
    let s1 = process_pending_spec(s);
    let p = s.pending;
    assert forall|x: u64| #[trigger] s1.tasks.contains_key(x) implies (s1.tasks[x]
        <==> s1.ready.contains(x)) by {
        if p.contains(x) {
            let w = choose|w: int| 0 <= w < p.len() && p[w] == x;
            assert(s1.ready[s.ready.len() + w] == x);
            assert(s1.ready.contains(x));
        } else {
            assert(s.tasks.contains_key(x));
            if s.ready.contains(x) {
                let w = choose|w: int| 0 <= w < s.ready.len() && s.ready[w] == x;
                assert(s1.ready[w] == x);
                assert(s1.ready.contains(x));
            } else {
                if s1.ready.contains(x) {
                    let w = choose|w: int| 0 <= w < s1.ready.len() && s1.ready[w] == x;
                    if w < s.ready.len() {
                        assert(s.ready[w] == x);
                    } else {
                        assert(p[w - s.ready.len()] == x);
                    }
                }
            }
        }
    }
    assert forall|i: int, j: int|
        0 <= i < j < s1.ready.len() && s1.tasks.contains_key(#[trigger] s1.ready[i]) implies
        s1.ready[i] != #[trigger] s1.ready[j] by {
        if j < s.ready.len() {
            if s.tasks.contains_key(s.ready[i]) {
                assert(s.ready[i] != s.ready[j]);
            } else {
                // the id at `i` is live in the new table but not the old
                // one, so it came from pending; pending ids are not in
                // the old ready queue, where it nevertheless sits.
                assert(p.contains(s1.ready[i]));
                let w = choose|w: int| 0 <= w < p.len() && p[w] == s1.ready[i];
                assert(!s.ready.contains(p[w]));
                assert(s.ready[i] == s1.ready[i]);
            }
        } else {
            let jj = j - s.ready.len();
            assert(s1.ready[j] == p[jj]);
            if i < s.ready.len() {
                assert(!s.ready.contains(p[jj]));
                if s1.ready[i] == p[jj] {
                    assert(s.ready[i] == p[jj]);
                }
            } else {
                let ii = i - s.ready.len();
                assert(s1.ready[i] == p[ii]);
                assert(p[ii] != p[jj]);
            }
        }
    }
    assert forall|i: int| 0 <= i < s1.ready.len() implies #[trigger] s1.ready[i]
        < s1.next_id by {
        if i < s.ready.len() {
            assert(s1.ready[i] == s.ready[i]);
        } else {
            assert(s1.ready[i] == p[i - s.ready.len()]);
        }
    }
    match s.current {
        Some(id) => {
            assert(s1.tasks.contains_key(id));
        },
        None => {},
    }
}

/// What taking the next task to poll does: stale ids at the front of the
/// ready queue — ids whose task has resolved — are discarded; the first
/// live id has its `scheduled` flag cleared and becomes the current task.
/// An exhausted queue yields no task.
pub open spec fn begin_poll_spec(s: SchedView) -> (SchedView, Option<u64>)
    decreases s.ready.len(),
{
    if s.ready.len() == 0 {
        (s, None)
    } else {
        let id = s.ready[0];
        if s.tasks.contains_key(id) {
            (
                SchedView {
                    tasks: s.tasks.insert(id, false),
                    ready: s.ready.drop_first(),
                    current: Some(id),
                    ..s
                },
                Some(id),
            )
        } else {
            begin_poll_spec(SchedView { ready: s.ready.drop_first(), ..s })
        }
    }
}

/// What finishing a poll does: the current-task marker is cleared; a
/// completed task leaves the task table, a still-pending one stays.
pub open spec fn finish_poll_spec(s: SchedView, id: u64, completed: bool) -> SchedView {
    if completed {
        SchedView { tasks: s.tasks.remove(id), current: None, ..s }
    } else {
        SchedView { current: None, ..s }
    }
}

/// Discarding a stale id from the front of the ready queue preserves the
/// scheduler invariant.
pub proof fn lemma_drop_stale_preserves_inv(s: SchedView)
    requires
        sched_inv(s),
        s.ready.len() > 0,
        !s.tasks.contains_key(s.ready[0]),
    ensures
        sched_inv(SchedView { ready: s.ready.drop_first(), ..s }),
{
    let s1 = SchedView { ready: s.ready.drop_first(), ..s };
    assert forall|x: u64| #[trigger] s1.tasks.contains_key(x) implies (s1.tasks[x]
        <==> s1.ready.contains(x)) by {
        assert(x != s.ready[0]);
        if s.ready.contains(x) {
            let w = choose|w: int| 0 <= w < s.ready.len() && s.ready[w] == x;
            assert(w >= 1);
            assert(s1.ready[w - 1] == x);
            assert(s1.ready.contains(x));
        } else {
            if s1.ready.contains(x) {
                let w = choose|w: int| 0 <= w < s1.ready.len() && s1.ready[w] == x;
                assert(s.ready[w + 1] == x);
            }
        }
    }
    assert forall|i: int|
        0 <= i < s1.pending.len() implies !s1.tasks.contains_key(#[trigger] s1.pending[i])
        && !s1.ready.contains(s1.pending[i]) by {
        assert(!s.ready.contains(s.pending[i]));
        if s1.ready.contains(s.pending[i]) {
            let w = choose|w: int| 0 <= w < s1.ready.len() && s1.ready[w] == s.pending[i];
            assert(s.ready[w + 1] == s.pending[i]);
        }
    }
}

/// What [`begin_poll_spec`] guarantees under the invariant: the invariant
/// is preserved, nothing but the queueing state changes, and a task that
/// is handed out for polling has left the ready queue entirely — its only
/// queue entry was the one just taken.
pub proof fn lemma_begin_poll_props(s: SchedView)
    requires
        sched_inv(s),
        s.current is None,
    ensures
        ({
            let (s1, rid) = begin_poll_spec(s);
            &&& sched_inv(s1)
            &&& s1.tasks.dom() == s.tasks.dom()
            &&& s1.pending == s.pending
            &&& s1.timers == s.timers
            &&& s1.io == s.io
            &&& s1.next_id == s.next_id
            &&& match rid {
                Some(id) => {
                    &&& s.tasks.contains_key(id)
                    &&& s1.tasks == s.tasks.insert(id, false)
                    &&& !s1.ready.contains(id)
                    &&& s1.current == Some(id)
                },
                None => s1 == SchedView { ready: Seq::<u64>::empty(), ..s },
            }
        }),
    decreases s.ready.len(),
{
    if s.ready.len() == 0 {
        let (s1, rid) = begin_poll_spec(s);
        assert(s1 =~= SchedView { ready: Seq::<u64>::empty(), ..s });
        assert(s1.tasks.dom() == s.tasks.dom());
    } else {
        let id = s.ready[0];
        if s.tasks.contains_key(id) {
            let (s1, rid) = begin_poll_spec(s);
            assert(s1.tasks.dom() =~= s.tasks.dom());
            // the taken entry was the task's only one, so it is gone.
            assert(s.tasks[id]);
            assert(!s1.ready.contains(id)) by {
                if s1.ready.contains(id) {
                    let w = choose|w: int| 0 <= w < s1.ready.len() && s1.ready[w] == id;
                    assert(s.ready[w + 1] == id);
                    assert(s.ready[0] != s.ready[w + 1]);
                }
            }
            assert(sched_inv(s1)) by {
                assert forall|x: u64| #[trigger] s1.tasks.contains_key(x) implies (s1.tasks[x]
                    <==> s1.ready.contains(x)) by {
                    if x == id {
                        assert(!s1.tasks[x]);
                    } else {
                        if s.ready.contains(x) {
                            let w = choose|w: int| 0 <= w < s.ready.len() && s.ready[w] == x;
                            assert(w >= 1);
                            assert(s1.ready[w - 1] == x);
                            assert(s1.ready.contains(x));
                        } else {
                            if s1.ready.contains(x) {
                                let w = choose|w: int| 0 <= w < s1.ready.len() && s1.ready[w] == x;
                                assert(s.ready[w + 1] == x);
                            }
                        }
                    }
                }
                assert forall|i: int|
                    0 <= i < s1.pending.len() implies !s1.tasks.contains_key(
                    #[trigger] s1.pending[i],
                ) && !s1.ready.contains(s1.pending[i]) by {
                    assert(!s.tasks.contains_key(s.pending[i]));
                    assert(!s.ready.contains(s.pending[i]));
                    if s1.ready.contains(s.pending[i]) {
                        let w = choose|w: int|
                            0 <= w < s1.ready.len() && s1.ready[w] == s.pending[i];
                        assert(s.ready[w + 1] == s.pending[i]);
                    }
                }
            }
        } else {
            let srest = SchedView { ready: s.ready.drop_first(), ..s };
            lemma_drop_stale_preserves_inv(s);
            lemma_begin_poll_props(srest);
            let (s1, rid) = begin_poll_spec(s);
            assert((s1, rid) == begin_poll_spec(srest));
            match rid {
                Some(_) => {
                },
                None => {
                    assert(s1 =~= SchedView { ready: Seq::<u64>::empty(), ..s });
                },
            }
        }
    }
}

/// Finishing a poll preserves the scheduler invariant.
pub proof fn lemma_finish_poll_preserves_inv(s: SchedView, id: u64, completed: bool)
    requires
        sched_inv(s),
        s.current == Some(id),
    ensures
        sched_inv(finish_poll_spec(s, id, completed)),
{
    let s1 = finish_poll_spec(s, id, completed);
    if completed {
        assert forall|i: int|
            0 <= i < s1.pending.len() implies !s1.tasks.contains_key(#[trigger] s1.pending[i])
            && !s1.ready.contains(s1.pending[i]) by {
            assert(!s.tasks.contains_key(s.pending[i]));
            assert(!s.ready.contains(s.pending[i]));
        }
    }
}

/// A task that resolves inside its first poll is removed from the task
/// table without ever re-entering the ready queue: taking it for polling
/// removed its only queue entry, and finishing it as completed removes
/// its table entry, so afterwards neither structure mentions it.
pub proof fn lemma_resolved_task_leaves_no_trace(s: SchedView)
    requires
        sched_inv(s),
        s.current is None,
    ensures
        ({
            let (s1, rid) = begin_poll_spec(s);
            match rid {
                Some(id) => {
                    let s2 = finish_poll_spec(s1, id, true);
                    &&& !s2.tasks.contains_key(id)
                    &&& !s2.ready.contains(id)
                },
                None => true,
            }
        }),
{
    lemma_begin_poll_props(s);
}

/// Waking preserves the scheduler invariant.
pub proof fn lemma_wake_preserves_inv(s: SchedView, id: u64)
    requires
        sched_inv(s),
        id < s.next_id,
    ensures
        sched_inv(wake_spec(s, id)),
{
    let s1 = wake_spec(s, id);
    if s.tasks.contains_key(id) && !s.tasks[id] {
        assert(!s.ready.contains(id));
        assert forall|x: u64| #[trigger] s1.tasks.contains_key(x) implies (s1.tasks[x]
            <==> s1.ready.contains(x)) by {
            if x == id {
                assert(s1.ready[s1.ready.len() - 1] == id);
                assert(s1.ready.contains(id));
            } else {
                assert(s.tasks.contains_key(x));
                if s.ready.contains(x) {
                    let w = choose|w: int| 0 <= w < s.ready.len() && s.ready[w] == x;
                    assert(s1.ready[w] == x);
                    assert(s1.ready.contains(x));
                } else {
                    if s1.ready.contains(x) {
                        let w = choose|w: int| 0 <= w < s1.ready.len() && s1.ready[w] == x;
                        assert(w < s.ready.len());
                        assert(s.ready[w] == x);
                    }
                }
            }
        }
        assert forall|i: int, j: int|
            0 <= i < j < s1.ready.len() && s1.tasks.contains_key(#[trigger] s1.ready[i]) implies
            s1.ready[i] != #[trigger] s1.ready[j] by {
            if j < s.ready.len() {
                if s.tasks.contains_key(s.ready[i]) {
                    assert(s.ready[i] != s.ready[j]);
                }
            } else {
                assert(s1.ready[j] == id);
                if s1.ready[i] == id {
                    assert(s.ready[i] == id);
                    assert(s.ready.contains(id));
                }
            }
        }
        assert forall|i: int|
            0 <= i < s1.pending.len() implies !s1.tasks.contains_key(#[trigger] s1.pending[i])
            && !s1.ready.contains(s1.pending[i]) by {
            assert(!s.tasks.contains_key(s.pending[i]));
            assert(!s.ready.contains(s.pending[i]));
            assert(s.pending[i] != id);
            if s1.ready.contains(s.pending[i]) {
                let w = choose|w: int| 0 <= w < s1.ready.len() && s1.ready[w] == s.pending[i];
                assert(w < s.ready.len());
                assert(s.ready.contains(s.pending[i]));
            }
        }
    } else if !s.tasks.contains_key(id) && !s.pending.contains(id) {
        // a stale id joins the ready queue; only live ids are constrained.
        assert forall|x: u64| #[trigger] s1.tasks.contains_key(x) implies (s1.tasks[x]
            <==> s1.ready.contains(x)) by {
            assert(x != id);
            if s.ready.contains(x) {
                let w = choose|w: int| 0 <= w < s.ready.len() && s.ready[w] == x;
                assert(s1.ready[w] == x);
                assert(s1.ready.contains(x));
            } else {
                if s1.ready.contains(x) {
                    let w = choose|w: int| 0 <= w < s1.ready.len() && s1.ready[w] == x;
                    assert(w < s.ready.len());
                }
            }
        }
        assert forall|i: int, j: int|
            0 <= i < j < s1.ready.len() && s1.tasks.contains_key(#[trigger] s1.ready[i]) implies
            s1.ready[i] != #[trigger] s1.ready[j] by {
            if j < s.ready.len() {
                if s.tasks.contains_key(s.ready[i]) {
                    assert(s.ready[i] != s.ready[j]);
                }
            } else {
                assert(s1.ready[j] == id);
                assert(s1.ready[i] != id);
            }
        }
        assert forall|i: int|
            0 <= i < s1.pending.len() implies !s1.tasks.contains_key(#[trigger] s1.pending[i])
            && !s1.ready.contains(s1.pending[i]) by {
            assert(!s.ready.contains(s.pending[i]));
            assert(s.pending.contains(s.pending[i]));
            assert(s.pending[i] != id);
            if s1.ready.contains(s.pending[i]) {
                let w = choose|w: int| 0 <= w < s1.ready.len() && s1.ready[w] == s.pending[i];
                assert(w < s.ready.len());
                assert(s.ready.contains(s.pending[i]));
            }
        }
    }
}

/// Spawning preserves the scheduler invariant.
pub proof fn lemma_spawn_preserves_inv(s: SchedView)
    requires
        sched_inv(s),
        s.next_id < u64::MAX,
    ensures
        sched_inv(spawn_spec(s)),
{
    let s1 = spawn_spec(s);
    assert forall|i: int|
        0 <= i < s1.pending.len() implies !s1.tasks.contains_key(#[trigger] s1.pending[i])
        && !s1.ready.contains(s1.pending[i]) by {
        if i < s.pending.len() {
            assert(s1.pending[i] == s.pending[i]);
        } else {
            assert(s1.pending[i] == s.next_id);
            if s1.ready.contains(s.next_id) {
                let w = choose|w: int| 0 <= w < s1.ready.len() && s1.ready[w] == s.next_id;
                assert(s.ready[w] < s.next_id);
            }
        }
    }
}

/// Seeding the root preserves the scheduler invariant.
pub proof fn lemma_seed_preserves_inv(s: SchedView)
    requires
        sched_inv(s),
        s.next_id < u64::MAX,
    ensures
        sched_inv(seed_spec(s)),
{
    let s1 = seed_spec(s);
    let id = s.next_id;
    if s.ready.contains(id) {
        let w = choose|w: int| 0 <= w < s.ready.len() && s.ready[w] == id;
        assert(s.ready[w] < s.next_id);
    }
    assert(!s.ready.contains(id));
    assert forall|x: u64| #[trigger] s1.tasks.contains_key(x) implies (s1.tasks[x]
        <==> s1.ready.contains(x)) by {
        if x == id {
            assert(s1.ready[s1.ready.len() - 1] == id);
            assert(s1.ready.contains(id));
        } else {
            assert(s.tasks.contains_key(x));
            if s.ready.contains(x) {
                let w = choose|w: int| 0 <= w < s.ready.len() && s.ready[w] == x;
                assert(s1.ready[w] == x);
                assert(s1.ready.contains(x));
            } else {
                if s1.ready.contains(x) {
                    let w = choose|w: int| 0 <= w < s1.ready.len() && s1.ready[w] == x;
                    assert(w < s.ready.len());
                }
            }
        }
    }
    assert forall|i: int, j: int|
        0 <= i < j < s1.ready.len() && s1.tasks.contains_key(#[trigger] s1.ready[i]) implies
        s1.ready[i] != #[trigger] s1.ready[j] by {
        if j < s.ready.len() {
            if s.tasks.contains_key(s.ready[i]) {
                assert(s.ready[i] != s.ready[j]);
            } else {
                assert(s.ready[i] < s.next_id);
            }
        } else {
            assert(s1.ready[j] == id);
            assert(s1.ready[i] != id);
        }
    }
    assert forall|i: int|
        0 <= i < s1.pending.len() implies !s1.tasks.contains_key(#[trigger] s1.pending[i])
        && !s1.ready.contains(s1.pending[i]) by {
        assert(s.pending[i] != id);
        assert(!s.ready.contains(s.pending[i]));
        if s1.ready.contains(s.pending[i]) {
            let w = choose|w: int| 0 <= w < s1.ready.len() && s1.ready[w] == s.pending[i];
            assert(w < s.ready.len());
            assert(s.ready.contains(s.pending[i]));
        }
    }
}

} // verus!
