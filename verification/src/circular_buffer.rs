//! Bounded ring history: a fixed-capacity container that keeps the most
//! recent `capacity` items pushed into it, overwriting the oldest item once
//! the capacity is reached. Capacity 0 is legal and discards every push.

use vstd::prelude::*;
use vstd::seq_lib::lemma_multiset_commutative;

verus! {

/// The suffix of `s` holding its last `min(c, s.len())` elements: the items a
/// ring of capacity `c` retains after the pushes recorded in `s`.
pub open spec fn recent_of<T>(s: Seq<T>, c: nat) -> Seq<T> {
    if s.len() <= c {
        s
    } else {
        s.subrange(s.len() - c, s.len() as int)
    }
}

/// `a` is `b` rotated left at some split point.
pub open spec fn is_rotation_of<T>(a: Seq<T>, b: Seq<T>) -> bool {
    exists|k: int|
        0 <= k <= b.len() && a == #[trigger] (b.subrange(k, b.len() as int) + b.subrange(0, k))
}

/// Fixed-capacity ring buffer. `push` is O(1) and never reallocates once the
/// buffer is full; the oldest stored item is overwritten instead. Reads hand
/// the stored items out in slot order, which is not the push order: callers
/// that need chronological order must sort by the items' own timestamps.
pub struct CircularBuffer<T> {
    items: Vec<T>,
    write_index: usize,
    capacity: usize,
    pushed: Ghost<Seq<T>>,
}

impl<T> CircularBuffer<T> {
    /// The fixed capacity this buffer was constructed with.
    pub closed spec fn capacity(&self) -> nat {
        self.capacity as nat
    }

    /// Every item ever pushed, in push order.
    pub closed spec fn pushed(&self) -> Seq<T> {
        self.pushed@
    }

    /// The stored items, in slot order (what a snapshot hands out).
    pub closed spec fn contents(&self) -> Seq<T> {
        self.items@
    }

    /// The most recent `min(capacity, pushed)` items, in push order.
    pub open spec fn recent(&self) -> Seq<T> {
        recent_of(self.pushed(), self.capacity())
    }

    pub closed spec fn wf(&self) -> bool {
        &&& self.items@.len() <= self.capacity
        &&& if self.pushed@.len() < self.capacity {
            self.items@ == self.pushed@ && self.write_index == 0
        } else {
            let n = self.pushed@.len() as int;
            let c = self.capacity as int;
            let w = self.write_index as int;
            &&& self.items@.len() == c
            &&& 0 <= w
            &&& (c == 0 ==> w == 0)
            &&& (c > 0 ==> w < c)
            &&& self.items@ == self.pushed@.subrange(n - w, n) + self.pushed@.subrange(
                n - c,
                n - w,
            )
        }
    }

    pub fn with_capacity(capacity: usize) -> (r: Self)
        ensures
            r.wf(),
            r.capacity() == capacity,
            r.pushed() == Seq::<T>::empty(),
    {
        let r = CircularBuffer {
            items: Vec::new(),
            write_index: 0,
            capacity,
            pushed: Ghost(Seq::empty()),
        };
        proof {
            if r.pushed@.len() >= r.capacity {
                assert(r.items@ =~= r.pushed@.subrange(0, 0) + r.pushed@.subrange(0, 0));
            }
        }
        r
    }

    /// Store `item`, overwriting the oldest stored item when the buffer is
    /// already holding `capacity` items. With capacity 0 the item is dropped.
    pub fn push(&mut self, item: T)
        requires
            old(self).wf(),
        ensures
            final(self).wf(),
            final(self).capacity() == old(self).capacity(),
            final(self).pushed() == old(self).pushed().push(item),
    {
        let ghost old_pushed = self.pushed@;
        let ghost n = old_pushed.len() as int;
        let ghost c = self.capacity as int;
        self.pushed = Ghost(old_pushed.push(item));
        if self.items.len() < self.capacity {
            // still filling: append in push order
            self.items.push(item);
            proof {
                if self.pushed@.len() >= c {
                    // just became full; the identity rotation (split at 0) holds
                    assert(self.items@ =~= self.pushed@.subrange(n + 1, n + 1)
                        + self.pushed@.subrange(n + 1 - c, n + 1));
                }
            }
        } else if self.capacity > 0 {
            let ghost w = self.write_index as int;
            self.items[self.write_index] = item;
            self.write_index = if self.write_index + 1 == self.capacity {
                0
            } else {
                self.write_index + 1
            };
            proof {
                if w + 1 < c {
                    assert(self.items@ =~= self.pushed@.subrange(n - w, n + 1)
                        + self.pushed@.subrange(n + 1 - c, n - w));
                } else {
                    assert(self.items@ =~= self.pushed@.subrange(n + 1, n + 1)
                        + self.pushed@.subrange(n + 1 - c, n + 1));
                }
            }
        } else {
            // capacity 0: every push is discarded
            proof {
                assert(self.items@ =~= self.pushed@.subrange(n + 1, n + 1)
                    + self.pushed@.subrange(n + 1, n + 1));
            }
        }
    }

    /// The stored items, in slot order, not push order.
    pub fn as_unordered_slice(&self) -> (r: &[T])
        ensures
            r@ == self.contents(),
    {
        self.items.as_slice()
    }

    pub fn len(&self) -> (r: usize)
        ensures
            r == self.contents().len(),
    {
        self.items.len()
    }
}

/// What a snapshot of the ring holds: exactly the most recent
/// `min(capacity, pushes)` items pushed, as a rotation of their push order —
/// the same items with the same multiplicities, irrespective of the order
/// they are reported in.
pub proof fn lemma_snapshot_is_recent<T>(buf: &CircularBuffer<T>)
    requires
        buf.wf(),
    ensures
        is_rotation_of(buf.contents(), buf.recent()),
        buf.contents().to_multiset() == buf.recent().to_multiset(),
        buf.contents().len() == buf.recent().len(),
{
    let n = buf.pushed().len() as int;
    let c = buf.capacity() as int;
    let r = buf.recent();
    if buf.pushed().len() < buf.capacity() {
        assert(buf.contents() == r.subrange(0, r.len() as int) + r.subrange(0, 0)) by {
            assert(buf.contents() =~= r.subrange(0, r.len() as int) + r.subrange(0, 0));
        }
    } else {
        let w = buf.write_index as int;
        assert(r.subrange(c - w, r.len() as int) =~= buf.pushed().subrange(n - w, n));
        assert(r.subrange(0, c - w) =~= buf.pushed().subrange(n - c, n - w));
        assert(buf.contents() == r.subrange(c - w, r.len() as int) + r.subrange(0, c - w));
    }
    lemma_rotation_multiset(buf.contents(), buf.recent());
}

/// A rotation of a sequence holds the same elements with the same
/// multiplicities.
pub proof fn lemma_rotation_multiset<T>(a: Seq<T>, b: Seq<T>)
    requires
        is_rotation_of(a, b),
    ensures
        a.to_multiset() == b.to_multiset(),
        a.len() == b.len(),
{
    broadcast use vstd::multiset::group_multiset_axioms;

    let k = choose|k: int|
        0 <= k <= b.len() && a == #[trigger] (b.subrange(k, b.len() as int) + b.subrange(0, k));
    let hd = b.subrange(0, k);
    let tl = b.subrange(k, b.len() as int);
    assert(b =~= hd + tl);
    lemma_multiset_commutative(tl, hd);
    lemma_multiset_commutative(hd, tl);
    assert(a.to_multiset() =~= b.to_multiset());
    a.to_multiset_ensures();
    b.to_multiset_ensures();
}

} // verus!
