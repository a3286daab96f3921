//! A max-priority heap of `(item, priority)` pairs.
//!
//! The pairs live in a vector arranged as a binary max-heap: the entry at
//! index `i > 0` has a priority at most that of its parent at `(i - 1) / 2`.
//! Abstractly a heap is the multiset of its pairs; `push` inserts one pair,
//! `pop` removes one carrying a maximal priority.

use crate::priority::Priority;
use vstd::multiset::Multiset;
use vstd::prelude::*;

verus! {

broadcast use
    vstd::seq_lib::group_to_multiset_ensures,
    vstd::multiset::group_multiset_axioms,
;

/// The index of the parent of heap slot `i`.
pub open spec fn parent(i: int) -> int {
    (i - 1) / 2
}

/// Every non-root entry's priority is at most its parent's.
pub open spec fn heap_ordered<T, O: Priority>(s: Seq<(T, O)>) -> bool {
    forall|i: int| 1 <= i < s.len() ==> (#[trigger] s[i]).1.le_spec(&s[parent(i)].1)
}

/// `p` is an upper bound on the priority of every pair in `m`.
pub open spec fn dominates<T, O: Priority>(p: O, m: Multiset<(T, O)>) -> bool {
    forall|q: (T, O)| #[trigger] m.count(q) > 0 ==> q.1.le_spec(&p)
}

/// Heap-ordered everywhere except that entry `c` may exceed its parent.
spec fn heap_ordered_except<T, O: Priority>(s: Seq<(T, O)>, c: int) -> bool {
    forall|i: int| 1 <= i < s.len() && i != c ==> (#[trigger] s[i]).1.le_spec(&s[parent(i)].1)
}

/// Heap-ordered everywhere except that the children of `c` may exceed `c`.
spec fn heap_ordered_except_below<T, O: Priority>(s: Seq<(T, O)>, c: int) -> bool {
    forall|i: int|
        1 <= i < s.len() && parent(i) != c ==> (#[trigger] s[i]).1.le_spec(&s[parent(i)].1)
}

/// The children of `c` are bounded by the priority of `c`'s parent.
spec fn children_below_grandparent<T, O: Priority>(s: Seq<(T, O)>, c: int) -> bool {
    forall|i: int|
        1 <= i < s.len() && parent(i) == c ==> (#[trigger] s[i]).1.le_spec(&s[parent(c)].1)
}

/// In a heap-ordered sequence, every priority is at most the root's.
proof fn lemma_le_root<T, O: Priority>(s: Seq<(T, O)>, i: int)
    requires
        heap_ordered(s),
        0 <= i < s.len(),
    ensures
        s[i].1.le_spec(&s[0].1),
    decreases i,
{
    if i == 0 {
        O::lemma_total(&s[0].1, &s[0].1);
    } else {
        lemma_le_root(s, parent(i));
        O::lemma_transitive(&s[i].1, &s[parent(i)].1, &s[0].1);
    }
}

/// Exchanges the entries at `i` and `j`; the multiset of entries is kept.
fn swap_entries<A>(v: &mut Vec<A>, i: usize, j: usize)
    requires
        i < j,
        j < old(v)@.len(),
    ensures
        final(v)@ == old(v)@.update(i as int, old(v)@[j as int]).update(
            j as int,
            old(v)@[i as int],
        ),
        final(v)@.to_multiset() == old(v)@.to_multiset(),
{
    let ghost s = v@;
    let x = v.remove(j);
    let y = v.remove(i);
    v.insert(i, x);
    v.insert(j, y);
    proof {
        let t = s.update(i as int, s[j as int]).update(j as int, s[i as int]);
        assert(v@ =~= t);
        assert(s.update(i as int, s[j as int])[j as int] == s[j as int]);
        assert(t.to_multiset() =~= s.to_multiset());
    }
}

/// A max-priority heap of items `T` with priorities `O`.
#[derive(Debug, Clone)]
pub struct Heap<T, O: Priority> {
    entries: Vec<(T, O)>,
}

impl<T, O: Priority> View for Heap<T, O> {
    type V = Multiset<(T, O)>;

    /// The multiset of `(item, priority)` pairs held by the heap.
    closed spec fn view(&self) -> Multiset<(T, O)> {
        self.entries@.to_multiset()
    }
}

impl<T, O: Priority> Heap<T, O> {
    /// The stored vector is arranged as a binary max-heap.
    pub closed spec fn wf(&self) -> bool {
        heap_ordered(self.entries@)
    }

    /// Returns a new, empty heap.
    pub fn new() -> (h: Self)
        ensures
            h.wf(),
            h@ == Multiset::<(T, O)>::empty(),
    {
        let h = Heap { entries: Vec::new() };
        proof {
            assert(h.entries@.to_multiset() =~= Multiset::<(T, O)>::empty());
        }
        h
    }

    /// Whether the heap holds no entries.
    pub fn is_empty(&self) -> (r: bool)
        ensures
            r == (self@.len() == 0),
    {
        self.entries.is_empty()
    }

    /// The number of entries held.
    pub fn len(&self) -> (r: usize)
        ensures
            r == self@.len(),
    {
        self.entries.len()
    }

    /// Inserts `item` with the given `priority`.
    pub fn push(&mut self, item: T, priority: O)
        requires
            old(self).wf(),
        ensures
            final(self).wf(),
            final(self)@ == old(self)@.insert((item, priority)),
            final(self)@.len() == old(self)@.len() + 1,
    {
        self.entries.push((item, priority));
        let mut c: usize = self.entries.len() - 1;
        proof {
            assert(self.entries@.to_multiset() == old(self)@.insert((item, priority)));
            assert forall|i: int| 1 <= i < self.entries@.len() && i != c implies (
            #[trigger] self.entries@[i]).1.le_spec(&self.entries@[parent(i)].1) by {
                assert(self.entries@[i] == old(self).entries@[i]);
                assert(self.entries@[parent(i)] == old(self).entries@[parent(i)]);
            }
        }
        loop
            invariant
                c < self.entries@.len(),
                self.entries@.len() == old(self).entries@.len() + 1,
                self.entries@.to_multiset() == old(self)@.insert((item, priority)),
                heap_ordered_except(self.entries@, c as int),
                c > 0 ==> children_below_grandparent(self.entries@, c as int),
            ensures
                self.entries@.len() == old(self).entries@.len() + 1,
                self.entries@.to_multiset() == old(self)@.insert((item, priority)),
                heap_ordered(self.entries@),
            decreases c,
        {
            if c == 0 {
                break ;
            }
            let p = (c - 1) / 2;
            let cmp = self.entries[c].1.le(&self.entries[p].1);
            if cmp {
                proof {
                    assert(heap_ordered(self.entries@));
                }
                break ;
            }
            proof {
                O::lemma_total(&self.entries@[c as int].1, &self.entries@[p as int].1);
            }
            let ghost s = self.entries@;
            swap_entries(&mut self.entries, p, c);
            proof {
                let t = self.entries@;
                let ci = c as int;
                let pi = p as int;
                // The moved-up entry keeps the heap shape except possibly at p.
                assert forall|i: int| 1 <= i < t.len() && i != pi implies (
                #[trigger] t[i]).1.le_spec(&t[parent(i)].1) by {
                    if i == ci {
                        // The old parent moved down below the old child.
                    } else if parent(i) == ci {
                        // A grandchild, bounded by the old grandparent.
                        assert(s[i].1.le_spec(&s[parent(ci)].1));
                    } else if parent(i) == pi {
                        // The sibling, bounded by the old parent, which is
                        // below the value moving up.
                        O::lemma_transitive(&s[i].1, &s[pi].1, &s[ci].1);
                    } else {
                        assert(s[i].1.le_spec(&s[parent(i)].1));
                    }
                }
                if pi > 0 {
                    assert forall|i: int| 1 <= i < t.len() && parent(i) == pi implies (
                    #[trigger] t[i]).1.le_spec(&t[parent(pi)].1) by {
                        if i == ci {
                            assert(s[pi].1.le_spec(&s[parent(pi)].1));
                        } else {
                            O::lemma_transitive(&s[i].1, &s[pi].1, &s[parent(pi)].1);
                        }
                    }
                }
            }
            c = p;
        }
        proof {
            assert(heap_ordered(self.entries@));
        }
    }

    /// Removes and returns a pair carrying a maximal priority, or `None` on
    /// an empty heap.
    pub fn pop_with_priority(&mut self) -> (r: Option<(T, O)>)
        requires
            old(self).wf(),
        ensures
            final(self).wf(),
            r is None <==> old(self)@.len() == 0,
            r is None ==> final(self)@ == old(self)@,
            r matches Some(pair) ==> {
                &&& old(self)@.count(pair) > 0
                &&& final(self)@ == old(self)@.remove(pair)
                &&& final(self)@.len() == old(self)@.len() - 1
                &&& dominates(pair.1, old(self)@)
            },
    {
        let n = self.entries.len();
        if n == 0 {
            return None;
        }
        let ghost s = self.entries@;
        proof {
            // The root priority dominates every stored pair.
            assert forall|q: (T, O)| #[trigger] old(self)@.count(q) > 0 implies q.1.le_spec(
                &s[0].1,
            ) by {
                assert(s.contains(q));
                let i = choose|i: int| 0 <= i < s.len() && s[i] == q;
                lemma_le_root(s, i);
            }
        }
        let e = self.entries.swap_remove(0);
        proof {
            assert(s.update(0, s.last()).drop_last() =~= s.update(0, s.last()).remove(
                s.len() - 1,
            ));
            assert(self.entries@.to_multiset() =~= s.to_multiset().remove(s[0]));
            assert(heap_ordered_except_below(self.entries@, 0)) by {
                let t = self.entries@;
                assert forall|i: int| 1 <= i < t.len() && parent(i) != 0 implies (
                #[trigger] t[i]).1.le_spec(&t[parent(i)].1) by {
                    assert(t[i] == s[i]);
                    assert(t[parent(i)] == s[parent(i)]);
                }
            }
        }
        self.sift_down(Ghost(old(self)@.remove((e.0, e.1))));
        Some(e)
    }

    /// Restores the heap shape when only the root may lie below its children.
    fn sift_down(&mut self, target: Ghost<Multiset<(T, O)>>)
        requires
            heap_ordered_except_below(old(self).entries@, 0),
            old(self).entries@.to_multiset() == target@,
        ensures
            final(self).wf(),
            final(self)@ == target@,
    {
        let mut c: usize = 0;
        let n = self.entries.len();
        if n == 0 {
            return ;
        }
        loop
            invariant
                n == self.entries@.len(),
                n > 0,
                c < n,
                self.entries@.to_multiset() == target@,
                heap_ordered_except_below(self.entries@, c as int),
                c > 0 ==> children_below_grandparent(self.entries@, c as int),
            ensures
                self.entries@.to_multiset() == target@,
                heap_ordered(self.entries@),
            decreases n - c,
        {
            if c >= n / 2 {
                // No children: slots 2c+1 and 2c+2 lie past the end.
                proof {
                    assert(heap_ordered(self.entries@));
                }
                break ;
            }
            let l = 2 * c + 1;
            let m = if l + 1 < n && self.entries[l].1.le(&self.entries[l + 1].1) {
                l + 1
            } else {
                l
            };
            proof {
                if m == l && l + 1 < n {
                    O::lemma_total(&self.entries@[l as int].1, &self.entries@[l + 1].1);
                }
            }
            let stop = self.entries[m].1.le(&self.entries[c].1);
            if stop {
                proof {
                    let t = self.entries@;
                    let ci = c as int;
                    assert forall|i: int| 1 <= i < t.len() implies (#[trigger] t[i]).1.le_spec(
                        &t[parent(i)].1,
                    ) by {
                        if parent(i) == ci && i != m {
                            assert(t[i].1.le_spec(&t[m as int].1));
                            O::lemma_transitive(&t[i].1, &t[m as int].1, &t[ci].1);
                        }
                    }
                }
                break ;
            }
            proof {
                O::lemma_total(&self.entries@[m as int].1, &self.entries@[c as int].1);
            }
            let ghost s = self.entries@;
            swap_entries(&mut self.entries, c, m);
            proof {
                let t = self.entries@;
                let ci = c as int;
                let mi = m as int;
                assert forall|i: int| 1 <= i < t.len() && parent(i) != mi implies (
                #[trigger] t[i]).1.le_spec(&t[parent(i)].1) by {
                    if i == mi {
                        // The larger child moved up; the displaced root value
                        // sits below it.
                    } else if parent(i) == ci {
                        // The sibling of the larger child lies below it.
                        assert(s[i].1.le_spec(&s[mi].1));
                    } else if i == ci {
                        assert(s[mi].1.le_spec(&s[parent(ci)].1));
                    } else {
                        assert(s[i].1.le_spec(&s[parent(i)].1));
                    }
                }
                assert forall|i: int| 1 <= i < t.len() && parent(i) == mi implies (
                #[trigger] t[i]).1.le_spec(&t[parent(mi)].1) by {
                    assert(s[i].1.le_spec(&s[mi].1));
                }
            }
            c = m;
        }
    }

    /// Removes and returns an item carrying a maximal priority, or `None` on
    /// an empty heap.
    pub fn pop(&mut self) -> (r: Option<T>)
        requires
            old(self).wf(),
        ensures
            final(self).wf(),
            r is None <==> old(self)@.len() == 0,
            r is None ==> final(self)@ == old(self)@,
            r matches Some(t) ==> exists|p: O|
                {
                    &&& #[trigger] dominates(p, old(self)@)
                    &&& old(self)@.count((t, p)) > 0
                    &&& final(self)@ == old(self)@.remove((t, p))
                },
            r is Some ==> final(self)@.len() == old(self)@.len() - 1,
    {
        let popped = self.pop_with_priority();
        match popped {
            None => None,
            Some((t, p)) => {
                proof {
                    assert(old(self)@.count((t, p)) > 0);
                    assert(dominates(p, old(self)@));
                }
                Some(t)
            },
        }
    }

    /// A reference to an item carrying a maximal priority, or `None` on an
    /// empty heap. The heap is not changed.
    pub fn peek(&self) -> (r: Option<&T>)
        requires
            self.wf(),
        ensures
            r is None <==> self@.len() == 0,
            r matches Some(t) ==> exists|p: O|
                {
                    &&& #[trigger] dominates(p, self@)
                    &&& self@.count((*t, p)) > 0
                },
    {
        match self.entries.first() {
            None => None,
            Some(e) => {
                proof {
                    let s = self.entries@;
                    assert forall|q: (T, O)| #[trigger] self@.count(q) > 0 implies q.1.le_spec(
                        &s[0].1,
                    ) by {
                        assert(s.contains(q));
                        let i = choose|i: int| 0 <= i < s.len() && s[i] == q;
                        lemma_le_root(s, i);
                    }
                    assert(s.contains(s[0]));
                    assert(self@.count((e.0, e.1)) > 0);
                    assert(dominates(e.1, self@));
                }
                Some(&e.0)
            },
        }
    }
}

} // verus!
