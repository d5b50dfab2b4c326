//! A priority queue implemented with a binary min-heap.
//!
//! Maintains the property that the smallest element is at the root, and
//! every parent node is smaller than or equal to its children. Elements
//! are ordered by an integer key, which makes the ordering total and lets
//! every contract speak of `key()` directly.

use vstd::multiset::Multiset;
use vstd::prelude::*;

verus! {

/// An element that a [`MinHeap`] can order: it exposes an integer key and
/// an executable comparison that agrees with the key.
pub trait HeapOrd: Sized + Copy {
    /// The key the heap orders by.
    spec fn key(&self) -> int;

    /// Executable comparison, consistent with `key`.
    fn le(&self, other: &Self) -> (r: bool)
        ensures
            r == (self.key() <= other.key()),
    ;
}

impl HeapOrd for i32 {
    open spec fn key(&self) -> int {
        *self as int
    }

    fn le(&self, other: &Self) -> (r: bool) {
        *self <= *other
    }
}

impl HeapOrd for u64 {
    open spec fn key(&self) -> int {
        *self as int
    }

    fn le(&self, other: &Self) -> (r: bool) {
        *self <= *other
    }
}

/// Index of the parent of node `i` in the implicit binary tree.
pub open spec fn parent(i: int) -> int {
    (i - 1) / 2
}

/// The min-heap property: every non-root node is at least its parent.
pub open spec fn heap_wf<T: HeapOrd>(s: Seq<T>) -> bool {
    forall|i: int| 1 <= i < s.len() ==> s[parent(i)].key() <= #[trigger] s[i].key()
}

/// The heap property everywhere except possibly between `p` and its
/// parent; in addition, the children of `p` are bounded by `p`'s parent.
/// This is the shape the buffer has while an inserted element sifts up.
pub open spec fn heap_wf_except_up<T: HeapOrd>(s: Seq<T>, p: int) -> bool {
    &&& forall|i: int|
        1 <= i < s.len() && i != p ==> s[parent(i)].key() <= #[trigger] s[i].key()
    &&& forall|i: int|
        1 <= i < s.len() && p >= 1 && parent(i) == p ==> s[parent(p)].key() <= #[trigger] s[i].key()
}

/// The heap property everywhere except possibly between `p` and its
/// children; in addition, the children of `p` are bounded by `p`'s
/// parent. This is the shape the buffer has while a displaced root sifts
/// down.
pub open spec fn heap_wf_except_down<T: HeapOrd>(s: Seq<T>, p: int) -> bool {
    &&& forall|i: int|
        1 <= i < s.len() && parent(i) != p ==> s[parent(i)].key() <= #[trigger] s[i].key()
    &&& forall|i: int|
        1 <= i < s.len() && p >= 1 && parent(i) == p ==> s[parent(p)].key() <= #[trigger] s[i].key()
}

/// A priority queue implemented with a binary min-heap.
pub struct MinHeap<T> {
    /// Internal buffer used for cache locality and fast index-based access.
    buf: Vec<T>,
}

/// An iterator which retrieves the elements of a [`MinHeap`] in ascending
/// key order, consuming the heap.
pub struct IntoIterSorted<T> {
    inner: MinHeap<T>,
}

/// Relies on Vec::capacity: the vector can hold at least its current
/// number of elements without reallocating.
#[verifier::external_body]
fn vec_capacity<T>(v: &Vec<T>) -> (r: usize)
    ensures
        r >= v@.len(),
{
    v.capacity()
}

/// Whether `x` is a minimum of the multiset `m`.
pub open spec fn is_min_of<T: HeapOrd>(m: Multiset<T>, x: T) -> bool {
    m.contains(x) && forall|y: T| #[trigger] m.contains(y) ==> x.key() <= y.key()
}

/// Two entries popped in succession come out in ascending key order: a
/// minimum of what remains after removing a first minimum is no smaller.
pub proof fn lemma_pops_ordered<T: HeapOrd>(m: Multiset<T>, x1: T, x2: T)
    requires
        is_min_of(m, x1),
        is_min_of(m.remove(x1), x2),
    ensures
        x1.key() <= x2.key(),
{
    broadcast use vstd::multiset::group_multiset_axioms;

    assert(m.remove(x1).count(x2) > 0);
    assert(m.count(x2) > 0);
    assert(m.contains(x2));
}

/// `q` is a possible pop sequence of the contents `m`: each element in
/// turn is a minimum of what remains at its point.
pub open spec fn is_pop_sequence<T: HeapOrd>(m: Multiset<T>, q: Seq<T>) -> bool
    decreases q.len(),
{
    if q.len() == 0 {
        m.len() == 0
    } else {
        is_min_of(m, q[0]) && is_pop_sequence(m.remove(q[0]), q.drop_first())
    }
}

/// Popping a heap to exhaustion yields its contents exactly once each, in
/// ascending key order. With distinct keys this pins the sequence down to
/// the unique sorted order of the contents.
pub proof fn lemma_pop_sequence_sorted<T: HeapOrd>(m: Multiset<T>, q: Seq<T>)
    requires
        is_pop_sequence(m, q),
    ensures
        q.to_multiset() == m,
        forall|i: int, j: int| 0 <= i < j < q.len() ==> #[trigger] q[i].key() <= #[trigger] q[j].key(),
    decreases q.len(),
{
    broadcast use vstd::seq_lib::group_to_multiset_ensures;
    broadcast use vstd::multiset::group_multiset_axioms;

    if q.len() == 0 {
        assert(q.to_multiset() =~= m);
    } else {
        let rest = q.drop_first();
        lemma_pop_sequence_sorted(m.remove(q[0]), rest);
        assert(q =~= seq![q[0]] + rest);
        assert(q.to_multiset() =~= m) by {
            assert(rest.to_multiset() == m.remove(q[0]));
            assert(q == rest.insert(0, q[0]));
            assert(q.to_multiset() == rest.to_multiset().insert(q[0]));
            assert(m.count(q[0]) > 0);
        }
        assert forall|i: int, j: int| 0 <= i < j < q.len() implies #[trigger] q[i].key()
            <= #[trigger] q[j].key() by {
            if i == 0 {
                assert(rest[j - 1] == q[j]);
                assert(rest.contains(rest[j - 1]));
                assert(rest.to_multiset().count(q[j]) > 0);
                assert(m.count(q[j]) > 0);
                assert(m.contains(q[j]));
            } else {
                assert(rest[i - 1] == q[i]);
                assert(rest[j - 1] == q[j]);
            }
        }
    }
}

/// All keys in `m` are distinct: no two different elements share a key
/// and no element occurs twice.
pub open spec fn distinct_keys<T: HeapOrd>(m: Multiset<T>) -> bool {
    &&& forall|x: T, y: T|
        #[trigger] m.contains(x) && #[trigger] m.contains(y) && x.key() == y.key() ==> x == y
    &&& forall|x: T| #[trigger] m.count(x) <= 1
}

/// With distinct keys the pop sequence is unique: any two ways of popping
/// the same contents to exhaustion yield the same sequence — by
/// [`lemma_pop_sequence_sorted`], the one ascending arrangement.
pub proof fn lemma_pop_sequence_unique<T: HeapOrd>(m: Multiset<T>, q1: Seq<T>, q2: Seq<T>)
    requires
        distinct_keys(m),
        is_pop_sequence(m, q1),
        is_pop_sequence(m, q2),
    ensures
        q1 == q2,
    decreases q1.len(),
{
    broadcast use vstd::multiset::group_multiset_axioms;

    if q1.len() == 0 {
        if q2.len() > 0 {
            assert(m.contains(q2[0]));
            assert(m.count(q2[0]) <= m.len());
        }
        assert(q2.len() == 0);
        assert(q1 =~= q2);
    } else {
        if q2.len() == 0 {
            assert(m.contains(q1[0]));
            assert(m.count(q1[0]) <= m.len());
        }
        assert(q2.len() > 0);
        let a = q1[0];
        let b = q2[0];
        // two minima of the same multiset have equal keys, and with
        // distinct keys equal keys mean the same element.
        assert(m.contains(a) && m.contains(b));
        assert(a.key() <= b.key() && b.key() <= a.key());
        assert(a == b);
        assert(distinct_keys(m.remove(a))) by {
            assert forall|x: T, y: T|
                #[trigger] m.remove(a).contains(x) && #[trigger] m.remove(a).contains(y)
                    && x.key() == y.key() implies x == y by {
                assert(m.count(x) >= m.remove(a).count(x));
                assert(m.count(y) >= m.remove(a).count(y));
                assert(m.contains(x));
                assert(m.contains(y));
            }
            assert forall|x: T| #[trigger] m.remove(a).count(x) <= 1 by {
                assert(m.remove(a).count(x) <= m.count(x));
            }
        }
        lemma_pop_sequence_unique(m.remove(a), q1.drop_first(), q2.drop_first());
        assert(q1 =~= q2) by {
            assert(q1.drop_first().len() == q2.drop_first().len());
            assert forall|i: int| 0 <= i < q1.len() implies q1[i] == q2[i] by {
                if i >= 1 {
                    assert(q1.drop_first()[i - 1] == q1[i]);
                    assert(q2.drop_first()[i - 1] == q2[i]);
                }
            }
        }
    }
}

impl<T: HeapOrd> View for MinHeap<T> {
    type V = Seq<T>;

    closed spec fn view(&self) -> Seq<T> {
        self.buf@
    }
}

/// Swapping two positions of a sequence leaves its multiset of elements
/// unchanged.
pub proof fn lemma_swap_to_multiset<T>(s: Seq<T>, i: int, j: int)
    requires
        0 <= i < s.len(),
        0 <= j < s.len(),
    ensures
        s.update(i, s[j]).update(j, s[i]).to_multiset() == s.to_multiset(),
{
    broadcast use vstd::seq_lib::group_to_multiset_ensures;
    broadcast use vstd::multiset::group_multiset_axioms;

    if i == j {
        assert(s.update(i, s[j]).update(j, s[i]) =~= s);
    } else {
        let s1 = s.update(i, s[j]);
        let s2 = s1.update(j, s[i]);
        assert(s.contains(s[i]));
        assert(s.contains(s[j]));
        assert(s.to_multiset().count(s[i]) > 0);
        assert(s.to_multiset().count(s[j]) > 0);
        assert(s1.to_multiset() == s.to_multiset().insert(s[j]).remove(s[i]));
        assert(s1[j] == s[j]);
        assert(s2.to_multiset() == s1.to_multiset().insert(s[i]).remove(s[j]));
        assert(s2.to_multiset() =~= s.to_multiset());
    }
}

/// Every node of a well-formed heap is at least the root: the root is a
/// minimum of the whole buffer.
pub proof fn lemma_root_is_min<T: HeapOrd>(s: Seq<T>, i: int)
    requires
        heap_wf(s),
        0 <= i < s.len(),
    ensures
        s[0].key() <= s[i].key(),
    decreases i,
{
    if i >= 1 {
        assert(0 <= parent(i) < i);
        assert(s[parent(i)].key() <= s[i].key());
        lemma_root_is_min(s, parent(i));
    }
}

impl<T: HeapOrd> MinHeap<T> {
    /// The min-heap invariant over the internal buffer.
    pub open spec fn wf(&self) -> bool {
        heap_wf(self@)
    }

    /// Creates an empty `MinHeap`.
    pub fn new() -> (r: Self)
        ensures
            r.wf(),
            r@ == Seq::<T>::empty(),
    {
        MinHeap { buf: Vec::new() }
    }

    /// Creates an empty `MinHeap` with at least the specified capacity.
    pub fn with_capacity(capacity: usize) -> (r: Self)
        ensures
            r.wf(),
            r@ == Seq::<T>::empty(),
    {
        MinHeap { buf: Vec::with_capacity(capacity) }
    }

    /// Returns the length of the binary heap.
    pub fn len(&self) -> (r: usize)
        ensures
            r == self@.len(),
    {
        self.buf.len()
    }

    /// Returns `true` if the binary heap is empty.
    pub fn is_empty(&self) -> (r: bool)
        ensures
            r == (self@.len() == 0),
    {
        self.buf.is_empty()
    }

    /// Returns a reference to the smallest item in the binary heap, or
    /// [`None`] if it is empty.
    pub fn peek(&self) -> (r: Option<&T>)
        requires
            self.wf(),
        ensures
            match r {
                None => self@.len() == 0,
                Some(x) => self@.len() > 0 && *x == self@[0] && forall|i: int|
                    0 <= i < self@.len() ==> x.key() <= #[trigger] self@[i].key(),
            },
    {
        if self.buf.len() == 0 {
            None
        } else {
            proof {
                assert forall|i: int| 0 <= i < self@.len() implies self@[0].key()
                    <= #[trigger] self@[i].key() by {
                    lemma_root_is_min(self@, i);
                }
            }
            Some(&self.buf[0])
        }
    }

    /// Swaps the items at `i` and `j`, leaving everything else in place.
    fn swap_items(&mut self, i: usize, j: usize)
        requires
            i < old(self)@.len(),
            j < old(self)@.len(),
        ensures
            final(self)@ == old(self)@.update(i as int, old(self)@[j as int]).update(
                j as int,
                old(self)@[i as int],
            ),
    {
        let a = self.buf[i];
        let b = self.buf[j];
        self.buf[i] = b;
        self.buf[j] = a;
    }

    /// Restores the min-heap invariant by fixing any violations caused
    /// after an insertion, returning the new position of the item.
    ///
    /// `pos` is the index of the item that is being moved up.
    fn sift_up(&mut self, pos: usize) -> (res: usize)
        requires
            pos < old(self)@.len(),
            heap_wf_except_up(old(self)@, pos as int),
        ensures
            final(self).wf(),
            final(self)@.to_multiset() == old(self)@.to_multiset(),
            final(self)@.len() == old(self)@.len(),
    {
        broadcast use vstd::seq_lib::group_to_multiset_ensures;

        let ghost m0 = self.buf@.to_multiset();
        let ghost n = self.buf@.len();
        let mut pos = pos;

        loop
            invariant
                pos < self@.len(),
                self@.len() == n,
                heap_wf_except_up(self@, pos as int),
                self@.to_multiset() == m0,
            ensures
                heap_wf(self@),
                self@.len() == n,
                self@.to_multiset() == m0,
            decreases pos,
        {
            // For an element at index `i`:
            //
            // - Parent: (i - 1) / 2
            if pos == 0 {
                // Only the root is exempt, so the whole buffer is ordered.
                break;
            }
            let par = (pos - 1) / 2;

            if self.buf[par].le(&self.buf[pos]) {
                // The parent is no larger: the heap property holds at `pos`
                // too, and everywhere else by the loop invariant.
                proof {
                    let s = self.buf@;
                    let p = pos as int;
                    assert forall|i: int| 1 <= i < s.len() implies s[parent(i)].key()
                        <= #[trigger] s[i].key() by {
                        if i != p {
                            assert(s[parent(i)].key() <= s[i].key());
                        }
                    }
                }
                break;
            }

            let ghost s0 = self.buf@;
            self.swap_items(pos, par);
            proof {
                let s1 = self.buf@;
                let p = pos as int;
                let q = par as int;
                lemma_swap_to_multiset(s0, p, q);
                assert(heap_wf_except_up(s1, q)) by {
                    assert forall|i: int| 1 <= i < s1.len() && i != q implies s1[parent(i)].key()
                        <= #[trigger] s1[i].key() by {
                        if i == p {
                            // the old parent moved down; it was larger.
                        } else if parent(i) == p {
                            // children of the old position now sit under the
                            // old parent's value, bounded by the except-up
                            // grandparent clause.
                            assert(s0[parent(p)].key() <= s0[i].key());
                        } else if parent(i) == q {
                            // the moved-up item is smaller than the old
                            // parent, which bounded `i` before.
                            assert(s0[q].key() <= s0[i].key());
                        } else {
                            assert(s1[parent(i)] == s0[parent(i)]);
                            assert(s1[i] == s0[i]);
                        }
                    }
                }
            }

            pos = par;
        }

        pos
    }

    /// Restores the min-heap invariant by fixing any violations caused
    /// after a removal, returning the new position of the item.
    ///
    /// `pos` is the index of the item that is being moved down.
    #[verifier::rlimit(60)]
    fn sift_down(&mut self, pos: usize) -> (res: usize)
        requires
            pos < old(self)@.len(),
            heap_wf_except_down(old(self)@, pos as int),
        ensures
            final(self).wf(),
            final(self)@.to_multiset() == old(self)@.to_multiset(),
            final(self)@.len() == old(self)@.len(),
    {
        let ghost m0 = self.buf@.to_multiset();
        let ghost n = self.buf@.len();
        let mut pos = pos;

        loop
            invariant
                pos < self@.len(),
                self@.len() == n,
                heap_wf_except_down(self@, pos as int),
                self@.to_multiset() == m0,
            ensures
                heap_wf(self@),
                self@.len() == n,
                self@.to_multiset() == m0,
            decreases n - pos,
        {
            // For an element at index `i`:
            //
            // - Left child: 2i + 1
            // - Right child: 2i + 2
            let len = self.buf.len();
            if len - pos <= pos + 1 {
                // No left child: nothing below `pos` to compare against.
                proof {
                    let s = self.buf@;
                    let p = pos as int;
                    assert forall|i: int| 1 <= i < s.len() implies s[parent(i)].key()
                        <= #[trigger] s[i].key() by {
                        if parent(i) == p {
                            assert(i >= 2 * p + 1);
                        }
                    }
                }
                break;
            }
            let left = 2 * pos + 1;
            let right = left + 1;

            // Comparison starts with the left child.
            let mut min = pos;
            if self.buf[left].le(&self.buf[pos]) {
                min = left;
            }

            // Check if the right child exists before comparing. `&&` is
            // short-circuiting, so the second condition won't run if
            // `right` is out of bounds.
            if right < len && self.buf[right].le(&self.buf[min]) {
                min = right;
            }

            // Check if a smaller child item was encountered.
            if min != pos {
                let ghost s0 = self.buf@;
                self.swap_items(pos, min);
                proof {
                    let s1 = self.buf@;
                    let p = pos as int;
                    let c = min as int;
                    lemma_swap_to_multiset(s0, p, c);
                    assert(parent(c) == p);
                    assert(heap_wf_except_down(s1, c)) by {
                        assert forall|i: int| 1 <= i < s1.len() && parent(i) != c implies s1[parent(
                            i,
                        )].key() <= #[trigger] s1[i].key() by {
                            if i == p {
                                // the smaller child moved up under `p`'s
                                // old parent, bounded by the grandparent
                                // clause.
                                assert(p >= 1 ==> s0[parent(p)].key() <= s0[c].key());
                            } else if i == c {
                                assert(s0[c].key() <= s0[p].key());
                            } else if parent(i) == p {
                                // the sibling of `c` is bounded by the
                                // value that moved up, which was the
                                // smaller child.
                                assert(s0[c].key() <= s0[i].key());
                            } else {
                                assert(s1[parent(i)] == s0[parent(i)]);
                                assert(s1[i] == s0[i]);
                            }
                        }
                        assert forall|i: int|
                            1 <= i < s1.len() && c >= 1 && parent(i) == c implies s1[parent(
                            c,
                        )].key() <= #[trigger] s1[i].key() by {
                            assert(s0[parent(i)].key() <= s0[i].key());
                        }
                    }
                }
                pos = min;
            } else {
                // Can no longer sift down: both children are no smaller.
                proof {
                    let s = self.buf@;
                    let p = pos as int;
                    assert forall|i: int| 1 <= i < s.len() implies s[parent(i)].key()
                        <= #[trigger] s[i].key() by {
                        if parent(i) == p {
                            assert(i == 2 * p + 1 || i == 2 * p + 2);
                        }
                    }
                }
                break;
            }
        }

        pos
    }

    /// Removes the smallest item from the binary heap and returns it, or
    /// [`None`] if it is empty.
    pub fn pop(&mut self) -> (r: Option<T>)
        requires
            old(self).wf(),
        ensures
            final(self).wf(),
            match r {
                None => old(self)@.len() == 0 && final(self)@ == old(self)@,
                Some(x) => {
                    &&& old(self)@.len() > 0
                    &&& x == old(self)@[0]
                    &&& is_min_of(old(self)@.to_multiset(), x)
                    &&& forall|i: int|
                        0 <= i < old(self)@.len() ==> x.key() <= #[trigger] old(self)@[i].key()
                    &&& final(self)@.to_multiset() == old(self)@.to_multiset().remove(x)
                    &&& final(self)@.len() == old(self)@.len() - 1
                },
            },
    {
        broadcast use vstd::seq_lib::group_to_multiset_ensures;
        broadcast use vstd::multiset::group_multiset_axioms;

        if self.buf.is_empty() {
            None
        } else {
            let ghost s0 = self.buf@;
            proof {
                assert forall|i: int| 0 <= i < s0.len() implies s0[0].key()
                    <= #[trigger] s0[i].key() by {
                    lemma_root_is_min(s0, i);
                }
                assert(s0.contains(s0[0]));
                assert(is_min_of(s0.to_multiset(), s0[0])) by {
                    assert forall|y: T| #[trigger] s0.to_multiset().contains(y) implies s0[0].key()
                        <= y.key() by {
                        assert(s0.to_multiset().count(y) > 0);
                        assert(s0.contains(y));
                        let k = choose|k: int| 0 <= k < s0.len() && s0[k] == y;
                        assert(s0[0].key() <= s0[k].key());
                    }
                }
            }
            // Removes the smallest element, replacing it with the last
            // element of the heap. Ensures *O*(1) time, instead of
            // `remove(0)` which is *O*(n) time.
            let item = self.buf.swap_remove(0);
            proof {
                let su = s0.update(0, s0.last());
                let s1 = self.buf@;
                assert(s1 == su.drop_last());
                assert(su.to_multiset() == s0.to_multiset().insert(s0.last()).remove(s0[0]));
                assert(s1 =~= su.remove(su.len() - 1));
                assert(s1.to_multiset() == su.to_multiset().remove(su[su.len() - 1]));
                assert(s0.contains(s0[0]));
                assert(s0.to_multiset().count(s0[0]) > 0);
                if s0.len() == 1 {
                    assert(s1.to_multiset() =~= s0.to_multiset().remove(s0[0]));
                } else {
                    assert(su[su.len() - 1] == s0.last());
                    assert(s1.to_multiset() =~= s0.to_multiset().remove(s0[0]));
                    assert(heap_wf_except_down(s1, 0)) by {
                        assert forall|i: int| 1 <= i < s1.len() && parent(i) != 0 implies s1[parent(
                            i,
                        )].key() <= #[trigger] s1[i].key() by {
                            assert(s1[i] == s0[i]);
                            assert(s1[parent(i)] == s0[parent(i)]);
                        }
                    }
                }
            }
            if !self.buf.is_empty() {
                self.sift_down(0);
            }
            Some(item)
        }
    }

    /// Pushes an item onto the binary heap.
    pub fn push(&mut self, item: T)
        requires
            old(self).wf(),
        ensures
            final(self).wf(),
            final(self)@.to_multiset() == old(self)@.to_multiset().insert(item),
            final(self)@.len() == old(self)@.len() + 1,
    {
        broadcast use vstd::seq_lib::group_to_multiset_ensures;

        let ghost s0 = self.buf@;
        // Appending `item` maintains the invariant of a complete binary
        // tree, meaning every level, except possibly the last, is fully
        // filled; the new tail is the only place the order can be wrong.
        self.buf.push(item);
        let pos = self.buf.len() - 1;
        proof {
            let s1 = self.buf@;
            assert(s1 == s0.push(item));
            assert(s1.to_multiset() == s0.to_multiset().insert(item));
            assert forall|i: int| 1 <= i < s1.len() && i != pos as int implies s1[parent(i)].key()
                <= #[trigger] s1[i].key() by {
                assert(s1[i] == s0[i]);
                assert(s1[parent(i)] == s0[parent(i)]);
            }
            assert(heap_wf_except_up(s1, pos as int));
        }
        self.sift_up(pos);
    }

    /// Returns the number of elements the binary heap can hold without
    /// reallocating.
    pub fn capacity(&self) -> (r: usize)
        ensures
            r >= self@.len(),
    {
        vec_capacity(&self.buf)
    }

    /// Returns an iterator which retrieves elements in min-heap order.
    ///
    /// This method consumes the original binary heap.
    pub fn into_iter_sorted(self) -> (r: IntoIterSorted<T>)
        requires
            self.wf(),
        ensures
            r.wf(),
            r@ == self@,
    {
        IntoIterSorted { inner: self }
    }
}

impl<T: HeapOrd> Default for MinHeap<T> {
    /// An empty heap.
    fn default() -> (r: Self)
        ensures
            r.wf(),
            r@ == Seq::<T>::empty(),
    {
        MinHeap::new()
    }
}

impl<T: HeapOrd> View for IntoIterSorted<T> {
    type V = Seq<T>;

    closed spec fn view(&self) -> Seq<T> {
        self.inner@
    }
}

impl<T: HeapOrd> IntoIterSorted<T> {
    /// The iterator is well-formed while its backing heap is.
    pub closed spec fn wf(&self) -> bool {
        self.inner.wf()
    }

    /// Returns the smallest remaining element, or [`None`] once all
    /// elements have been yielded.
    pub fn next(&mut self) -> (r: Option<T>)
        requires
            old(self).wf(),
        ensures
            final(self).wf(),
            match r {
                None => old(self)@.len() == 0 && final(self)@ == old(self)@,
                Some(x) => {
                    &&& old(self)@.len() > 0
                    &&& is_min_of(old(self)@.to_multiset(), x)
                    &&& final(self)@.to_multiset() == old(self)@.to_multiset().remove(x)
                    &&& final(self)@.len() == old(self)@.len() - 1
                },
            },
    {
        self.inner.pop()
    }

    /// Bounds on the number of remaining elements; both bounds are exact.
    pub fn size_hint(&self) -> (r: (usize, Option<usize>))
        ensures
            r.0 == self@.len(),
            r.1 == Some(r.0),
    {
        (self.inner.len(), Some(self.inner.len()))
    }
}

} // verus!
