//! The I/O driver's registration table.
//!
//! The driver proper wraps a kernel readiness instance; the kernel calls
//! themselves stay with the embedder. What the library verifies is the
//! table the driver keeps beside the kernel instance: the mapping from
//! file descriptor to the waker that readiness must fire, together with
//! the interest mask the descriptor was armed with. The recoverable
//! kernel conditions have their table-side meaning here too: re-adding a
//! registered descriptor updates its mask in place, and modifying or
//! removing an unknown descriptor is silently tolerated.

use std::collections::HashMap;

use vstd::prelude::*;

use crate::task::TaskId;

verus! {

/// Interest recorded for one registered file descriptor: the event mask
/// it was armed with and the task whose waker fires on readiness.
#[derive(Debug, Copy, Clone, PartialEq, Eq, Structural)]
pub struct FdInterest {
    /// Bit mask of event types the descriptor is watched for.
    pub events: u32,
    /// The task woken when an event arrives for the descriptor.
    pub task: TaskId,
}

/// What registering a descriptor does to the table: a new descriptor is
/// bound to the given waker; an already-present one keeps its waker and
/// only has its mask updated, as an add that reports an existing entry is
/// transparently turned into a modify.
pub open spec fn register_spec(
    m: Map<i32, FdInterest>,
    fd: i32,
    events: u32,
    task: TaskId,
) -> Map<i32, FdInterest> {
    if m.contains_key(fd) {
        m.insert(fd, FdInterest { events, task: m[fd].task })
    } else {
        m.insert(fd, FdInterest { events, task })
    }
}

/// What modifying a descriptor's mask does to the table: an absent
/// descriptor is left alone, a present one keeps its waker.
pub open spec fn modify_spec(m: Map<i32, FdInterest>, fd: i32, events: u32) -> Map<
    i32,
    FdInterest,
> {
    if m.contains_key(fd) {
        m.insert(fd, FdInterest { events, task: m[fd].task })
    } else {
        m
    }
}

/// What unregistering does to the table.
pub open spec fn unregister_spec(m: Map<i32, FdInterest>, fd: i32) -> Map<i32, FdInterest> {
    m.remove(fd)
}

/// `fd` is registered with a waker that wakes `task`.
pub open spec fn bound_to(m: Map<i32, FdInterest>, fd: i32, task: TaskId) -> bool {
    m.contains_key(fd) && m[fd].task == task
}

/// A file descriptor is in the table exactly when one waker is bound to
/// it, and that waker is unique.
pub proof fn lemma_registered_iff_unique_waker(m: Map<i32, FdInterest>, fd: i32)
    ensures
        m.contains_key(fd) <==> exists|t: TaskId| bound_to(m, fd, t),
        forall|t1: TaskId, t2: TaskId|
            #[trigger] bound_to(m, fd, t1) && #[trigger] bound_to(m, fd, t2) ==> t1 == t2,
{
    if m.contains_key(fd) {
        assert(bound_to(m, fd, m[fd].task));
    }
}

/// Modifying a descriptor's mask twice with the same mask has the same
/// effect on the table as modifying it once.
pub proof fn lemma_modify_idempotent(m: Map<i32, FdInterest>, fd: i32, events: u32)
    ensures
        modify_spec(modify_spec(m, fd, events), fd, events) == modify_spec(m, fd, events),
{
    broadcast use vstd::map::group_map_axioms;

    if m.contains_key(fd) {
        assert(modify_spec(modify_spec(m, fd, events), fd, events) =~= modify_spec(m, fd, events));
    }
}

/// Registering a fresh descriptor and then unregistering it restores the
/// table to its value before the pair of calls. (A descriptor that was
/// already present keeps only one entry, so unregistering it would drop
/// the original binding as well: the round trip is stated for fresh
/// descriptors.)
pub proof fn lemma_register_unregister_roundtrip(
    m: Map<i32, FdInterest>,
    fd: i32,
    events: u32,
    task: TaskId,
)
    requires
        !m.contains_key(fd),
    ensures
        unregister_spec(register_spec(m, fd, events, task), fd) == m,
{
    broadcast use vstd::map::group_map_axioms;

    assert(unregister_spec(register_spec(m, fd, events, task), fd) =~= m);
}

/// The `registered` table of the I/O driver: every live registration,
/// each descriptor bound to exactly one waker.
pub struct IoRegistry {
    registered: HashMap<i32, FdInterest>,
}

impl View for IoRegistry {
    type V = Map<i32, FdInterest>;

    closed spec fn view(&self) -> Map<i32, FdInterest> {
        self.registered@
    }
}

impl IoRegistry {
    /// Creates an empty table.
    pub fn new() -> (r: Self)
        ensures
            r@ == Map::<i32, FdInterest>::empty(),
    {
        IoRegistry { registered: HashMap::new() }
    }

    /// Number of registered descriptors.
    pub fn len(&self) -> (r: usize)
        ensures
            r == self@.dom().len(),
    {
        broadcast use vstd::std_specs::hash::group_hash_axioms;

        self.registered.len()
    }

    /// Returns `true` if no descriptor is registered: the event loop then
    /// skips the kernel wait entirely instead of blocking.
    pub fn is_empty(&self) -> (r: bool)
        ensures
            r == self@.dom().is_empty(),
    {
        broadcast use vstd::std_specs::hash::group_hash_axioms;
        broadcast use vstd::map::group_map_axioms;

        let r = self.registered.is_empty();
        proof {
            if self@.len() == 0 {
                assert(self@.dom() =~= Set::<i32>::empty());
            }
            if self@.dom().is_empty() {
                assert(self@.dom().len() == 0);
            }
        }
        r
    }

    /// Whether `fd` currently has a registration.
    pub fn contains(&self, fd: i32) -> (r: bool)
        ensures
            r == self@.contains_key(fd),
    {
        broadcast use vstd::std_specs::hash::group_hash_axioms;

        self.registered.contains_key(&fd)
    }

    /// The interest recorded under `fd`, if any.
    pub fn lookup(&self, fd: i32) -> (r: Option<FdInterest>)
        ensures
            match r {
                Some(fi) => self@.contains_key(fd) && self@[fd] == fi,
                None => !self@.contains_key(fd),
            },
    {
        broadcast use vstd::std_specs::hash::group_hash_axioms;

        match self.registered.get(&fd) {
            Some(fi) => Some(*fi),
            None => None,
        }
    }

    /// Records a registration of `fd` with mask `events`, waking `task`.
    ///
    /// If `fd` is already present the registration is transparently
    /// treated as a modify: the mask is updated and the original waker
    /// stays bound, mirroring how an add that the kernel refuses as
    /// existing is retried as a modify.
    pub fn register(&mut self, fd: i32, events: u32, task: TaskId)
        ensures
            final(self)@ == register_spec(old(self)@, fd, events, task),
    {
        broadcast use vstd::std_specs::hash::group_hash_axioms;

        match self.registered.get(&fd) {
            Some(existing) => {
                let kept = existing.task;
                self.registered.insert(fd, FdInterest { events, task: kept });
            },
            None => {
                self.registered.insert(fd, FdInterest { events, task });
            },
        }
    }

    /// Updates the mask of an already-registered descriptor, keeping its
    /// waker. A descriptor that is not present is silently tolerated and
    /// the table is left unchanged.
    pub fn modify(&mut self, fd: i32, events: u32)
        ensures
            final(self)@ == modify_spec(old(self)@, fd, events),
    {
        broadcast use vstd::std_specs::hash::group_hash_axioms;

        match self.registered.get(&fd) {
            Some(existing) => {
                let kept = existing.task;
                self.registered.insert(fd, FdInterest { events, task: kept });
            },
            None => {},
        }
    }

    /// Removes the registration of `fd`, returning the interest that was
    /// bound to it. A descriptor that is not present is silently
    /// tolerated.
    pub fn unregister(&mut self, fd: i32) -> (r: Option<FdInterest>)
        ensures
            final(self)@ == unregister_spec(old(self)@, fd),
            match r {
                Some(fi) => old(self)@.contains_key(fd) && old(self)@[fd] == fi,
                None => !old(self)@.contains_key(fd),
            },
    {
        broadcast use vstd::std_specs::hash::group_hash_axioms;
        broadcast use vstd::map::group_map_axioms;

        let r = self.registered.remove(&fd);
        proof {
            assert(self@ =~= unregister_spec(old(self)@, fd));
        }
        r
    }
}

} // verus!
