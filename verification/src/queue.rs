//! A max-priority queue of items with totally ordered priorities.
//!
//! The queue owns a multiset of `(item, priority)` pairs, backed by the
//! binary heap of [`crate::heap`]. `pop` extracts an item carrying a maximal
//! priority; ties are broken arbitrarily. `truncate` keeps only the highest
//! priorities, discarding the excess.

use crate::heap::Heap;
use crate::heap::dominates;
use crate::priority::Priority;
use vstd::multiset::Multiset;
use vstd::prelude::*;

verus! {

broadcast use vstd::multiset::group_multiset_axioms;

/// Every pair of `dropped` has a priority at most that of every pair of
/// `kept`.
pub open spec fn all_below<T, O: Priority>(
    dropped: Multiset<(T, O)>,
    kept: Multiset<(T, O)>,
) -> bool {
    forall|a: (T, O), b: (T, O)|
        #[trigger] kept.count(a) > 0 && #[trigger] dropped.count(b) > 0 ==> b.1.le_spec(&a.1)
}

/// A max-priority queue of items `T` with priorities `O`.
#[derive(Debug, Clone)]
pub struct Queue<T, O: Priority> {
    heap: Heap<T, O>,
}

impl<T, O: Priority> View for Queue<T, O> {
    type V = Multiset<(T, O)>;

    /// The multiset of `(item, priority)` pairs held by the queue.
    closed spec fn view(&self) -> Multiset<(T, O)> {
        self.heap@
    }
}

impl<T, O: Priority> Queue<T, O> {
    /// The backing storage is a well-formed heap.
    pub closed spec fn wf(&self) -> bool {
        self.heap.wf()
    }

    /// Returns a new, empty queue.
    pub fn new() -> (q: Self)
        ensures
            q.wf(),
            q@ == Multiset::<(T, O)>::empty(),
    {
        Queue { heap: Heap::new() }
    }

    /// Inserts `item` with the given `priority`. Always succeeds.
    pub fn push(&mut self, item: T, priority: O)
        requires
            old(self).wf(),
        ensures
            final(self).wf(),
            final(self)@ == old(self)@.insert((item, priority)),
            final(self)@.len() == old(self)@.len() + 1,
    {
        self.heap.push(item, priority);
    }

    /// Removes and returns an item carrying a maximal priority, or `None` on
    /// an empty queue.
    pub fn pop(&mut self) -> (r: Option<T>)
        requires
            old(self).wf(),
        ensures
            final(self).wf(),
            r is None <==> old(self)@.len() == 0,
            r is None ==> final(self)@ == old(self)@,
            r matches Some(t) ==> exists|p: O|
                {
                    &&& #[trigger] dominates(p, old(self)@)
                    &&& old(self)@.count((t, p)) > 0
                    &&& final(self)@ == old(self)@.remove((t, p))
                },
            r is Some ==> final(self)@.len() == old(self)@.len() - 1,
    {
        self.heap.pop()
    }

    /// Removes and returns a pair carrying a maximal priority, or `None` on
    /// an empty queue.
    pub fn pop_with_priority(&mut self) -> (r: Option<(T, O)>)
        requires
            old(self).wf(),
        ensures
            final(self).wf(),
            r is None <==> old(self)@.len() == 0,
            r is None ==> final(self)@ == old(self)@,
            r matches Some(pair) ==> {
                &&& old(self)@.count(pair) > 0
                &&& final(self)@ == old(self)@.remove(pair)
                &&& final(self)@.len() == old(self)@.len() - 1
                &&& dominates(pair.1, old(self)@)
            },
    {
        self.heap.pop_with_priority()
    }

    /// A reference to an item carrying a maximal priority, or `None` on an
    /// empty queue. The queue is not changed.
    pub fn peek(&self) -> (r: Option<&T>)
        requires
            self.wf(),
        ensures
            r is None <==> self@.len() == 0,
            r matches Some(t) ==> exists|p: O|
                {
                    &&& #[trigger] dominates(p, self@)
                    &&& self@.count((*t, p)) > 0
                },
    {
        self.heap.peek()
    }

    /// Whether the queue holds no entries.
    pub fn is_empty(&self) -> (r: bool)
        ensures
            r == (self@.len() == 0),
    {
        self.heap.is_empty()
    }

    /// The number of entries held.
    pub fn len(&self) -> (r: usize)
        ensures
            r == self@.len(),
    {
        self.heap.len()
    }

    /// Keeps the `len` pairs with the highest priorities and discards the
    /// rest; a queue already at or below `len` entries is left unchanged.
    pub fn truncate(&mut self, len: usize)
        requires
            old(self).wf(),
        ensures
            final(self).wf(),
            old(self)@.len() <= len ==> final(self)@ == old(self)@,
            old(self)@.len() > len ==> {
                &&& final(self)@.len() == len
                &&& final(self)@.subset_of(old(self)@)
                &&& all_below(old(self)@.sub(final(self)@), final(self)@)
            },
    {
        if self.heap.len() <= len {
            return ;
        }
        let ghost orig = self.heap@;
        let mut kept: Heap<T, O> = Heap::new();
        let mut i: usize = 0;
        loop
            invariant
                i <= len,
                len < orig.len(),
                self.heap.wf(),
                kept.wf(),
                kept@.len() == i,
                self.heap@.len() == orig.len() - i,
                kept@.add(self.heap@) == orig,
                all_below(self.heap@, kept@),
            ensures
                self.heap.wf(),
                kept.wf(),
                kept@.len() == len,
                kept@.add(self.heap@) == orig,
                all_below(self.heap@, kept@),
            decreases len - i,
        {
            if i >= len {
                break ;
            }
            let ghost before = self.heap@;
            let ghost kept_before = kept@;
            let popped = self.heap.pop_with_priority();
            match popped {
                Some((t, p)) => {
                    kept.push(t, p);
                    proof {
                        let pair = (t, p);
                        assert(kept@.add(self.heap@) =~= orig) by {
                            assert(before.count(pair) > 0);
                            assert(kept_before.add(before) == orig);
                        }
                        assert forall|a: (T, O), b: (T, O)|
                            #[trigger] kept@.count(a) > 0 && #[trigger] self.heap@.count(b)
                                > 0 implies b.1.le_spec(&a.1) by {
                            assert(before.count(b) > 0);
                            if kept_before.count(a) > 0 {
                                assert(b.1.le_spec(&a.1));
                            } else {
                                assert(a == pair);
                                assert(dominates(pair.1, before));
                                assert(b.1.le_spec(&pair.1));
                            }
                        }
                    }
                    i += 1;
                },
                None => {
                    proof {
                        assert(false);
                    }
                    break ;
                },
            }
        }
        let ghost rest = self.heap@;
        self.heap = kept;
        proof {
            assert(self.heap@.subset_of(orig)) by {
                assert forall|q: (T, O)| true implies self.heap@.count(q) <= orig.count(q) by {
                    assert(orig.count(q) == self.heap@.count(q) + rest.count(q));
                }
            }
            assert(orig.sub(self.heap@) =~= rest);
        }
    }
}

} // verus!
