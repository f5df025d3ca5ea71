//! A double-ended queue over a circular buffer.
use crate::model::{put_back, put_front, take_back, take_front};
use crate::ring::{is_pow2, lemma_pow2_double, lemma_pow2_four, lemma_pow2_halve, next_index, prev_index, slot};
use vstd::prelude::*;

verus! {

/// A double-ended queue: elements go in and come out at either end.
///
/// The buffer holds `cap` slots; the live elements occupy the `len`
/// consecutive circular slots that start at `front`, and `back` is the slot
/// that `push_back` writes to next.  Every other slot is empty.
pub struct Deque<T> {
    buf: Vec<Option<T>>,
    cap: usize,
    len: usize,
    front: usize,
    back: usize,
}

impl<T> View for Deque<T> {
    type V = Seq<T>;

    /// The live elements, front first.
    closed spec fn view(&self) -> Seq<T> {
        Seq::new(self.len as nat, |j: int| self.buf@[slot(self.front as int, j, self.cap as int)]->Some_0)
    }
}

impl<T> Deque<T> {
    /// The number of slots the buffer currently holds.
    pub closed spec fn spec_capacity(&self) -> nat {
        self.cap as nat
    }

    /// The layout of the buffer: cursors in range, the live range filled and
    /// every other slot empty, and a capacity that is a power of two no
    /// smaller than four.
    closed spec fn wf_layout(&self) -> bool {
        &&& self.buf@.len() == self.cap
        &&& 4 <= self.cap
        &&& is_pow2(self.cap as nat)
        &&& self.len <= self.cap
        &&& self.front < self.cap
        &&& self.back == slot(self.front as int, self.len as int, self.cap as int)
        &&& forall|j: int| 0 <= j < self.cap ==>
            (#[trigger] self.buf@[slot(self.front as int, j, self.cap as int)] is Some <==> j < self.len)
    }

    /// The internal invariant: the layout above, with a capacity of four or
    /// at most twice the length.
    pub closed spec fn wf(&self) -> bool {
        &&& self.wf_layout()
        &&& self.cap == 4 || self.cap <= 2 * self.len
    }

    /// The capacity after an insertion into a deque of length `len` and
    /// capacity `cap`: doubled when the buffer was full.
    pub open spec fn cap_after_insert(cap: nat, len: nat) -> nat {
        if len == cap { 2 * cap } else { cap }
    }

    /// The capacity after a removal that left `len` elements in a buffer of
    /// capacity `cap`: halved when more than half of it is unused, above four.
    pub open spec fn cap_after_remove(cap: nat, len: nat) -> nat {
        if cap > 2 * len && cap > 4 { cap / 2 } else { cap }
    }

    /// An empty deque with room for four elements.
    pub fn new() -> (r: Self)
        ensures
            r.wf(),
            r@ == Seq::<T>::empty(),
            r.spec_capacity() == 4,
    {
        let r = Deque { buf: Self::empty_slots(4), cap: 4, len: 0, front: 0, back: 0 };
        proof { lemma_pow2_four(); }
        assert forall|j: int| 0 <= j < r.cap implies
            (#[trigger] r.buf@[slot(r.front as int, j, r.cap as int)] is Some <==> j < r.len) by {
            assert(r.buf@[j] is None);
        }
        assert(r@ =~= Seq::<T>::empty());
        r
    }

    /// A buffer of `n` empty slots.
    fn empty_slots(n: usize) -> (r: Vec<Option<T>>)
        ensures
            r@.len() == n,
            forall|i: int| 0 <= i < n ==> r@[i] is None,
    {
        let mut r: Vec<Option<T>> = Vec::new();
        let mut i: usize = 0;
        while i < n
            invariant
                i <= n,
                r@.len() == i,
                forall|k: int| 0 <= k < i ==> r@[k] is None,
            decreases n - i,
        {
            r.push(None);
            i = i + 1;
        }
        r
    }

    /// Inserts `elem` at the back, doubling the buffer first when it is full.
    pub fn push_back(&mut self, elem: T)
        requires
            old(self).wf(),
            old(self)@.len() < usize::MAX / 2,
        ensures
            final(self).wf(),
            final(self)@ == put_back(old(self)@, elem),
            final(self).spec_capacity() == Self::cap_after_insert(old(self).spec_capacity(), old(self)@.len()),
    {
        if self.cap == self.len {
            proof { lemma_pow2_double(self.cap as nat); }
            self.resize(self.cap * 2);
        }
        let ghost before = *self;
        let b = self.back;
        self.buf.set(b, Some(elem));
        self.back = next_index(self.back, self.cap);
        self.len = self.len + 1;
        proof {
            assert(b == slot(before.front as int, before.len as int, before.cap as int));
            assert forall|j: int| 0 <= j < self.cap implies
                (#[trigger] self.buf@[slot(self.front as int, j, self.cap as int)] is Some <==> j < self.len) by {
                if j != before.len {
                    assert(before.buf@[slot(before.front as int, j, before.cap as int)] is Some <==> j < before.len);
                }
            }
            assert(self@ =~= put_back(before@, elem));
        }
    }

    /// Removes and returns the front element, or `None` when the deque is
    /// empty.  Afterwards the buffer is halved when more than half of it is
    /// unused and it holds more than four slots.
    pub fn pop_front(&mut self) -> (r: Option<T>)
        requires
            old(self).wf(),
        ensures
            final(self).wf(),
            (r, final(self)@) == take_front(old(self)@),
            final(self).spec_capacity() == if old(self)@.len() == 0 {
                old(self).spec_capacity()
            } else {
                Self::cap_after_remove(old(self).spec_capacity(), final(self)@.len())
            },
    {
        if self.len == 0 {
            return None;
        }
        let ghost before = *self;
        let f = self.front;
        let elem = self.buf[f].take();
        self.front = next_index(self.front, self.cap);
        self.len = self.len - 1;
        proof {
            assert(f == slot(before.front as int, 0, before.cap as int));
            assert forall|j: int| 0 <= j < self.cap implies
                (#[trigger] self.buf@[slot(self.front as int, j, self.cap as int)] is Some <==> j < self.len) by {
                let k = if j + 1 < self.cap { j + 1 } else { 0 };
                assert(before.buf@[slot(before.front as int, k, before.cap as int)] is Some <==> k < before.len);
            }
            assert(self@ =~= before@.drop_first());
        }
        if self.len < self.cap - self.len && self.cap > 4 {
            proof { lemma_pow2_halve(self.cap as nat); }
            self.resize(self.cap / 2);
        }
        elem
    }

    /// Inserts `elem` at the front, doubling the buffer first when it is
    /// full.  The new front slot is the floor modulo of `front - 1`.
    pub fn push_front(&mut self, elem: T)
        requires
            old(self).wf(),
            old(self)@.len() < usize::MAX / 2,
        ensures
            final(self).wf(),
            final(self)@ == put_front(old(self)@, elem),
            final(self).spec_capacity() == Self::cap_after_insert(old(self).spec_capacity(), old(self)@.len()),
    {
        if self.cap == self.len {
            proof { lemma_pow2_double(self.cap as nat); }
            self.resize(self.cap * 2);
        }
        let ghost before = *self;
        let f = prev_index(self.front, self.cap);
        self.buf.set(f, Some(elem));
        self.front = f;
        self.len = self.len + 1;
        proof {
            assert forall|j: int| 0 <= j < self.cap implies
                (#[trigger] self.buf@[slot(self.front as int, j, self.cap as int)] is Some <==> j < self.len) by {
                if j == 0 {
                } else {
                    assert(slot(f as int, j, self.cap as int) == slot(before.front as int, j - 1, before.cap as int));
                    assert(before.buf@[slot(before.front as int, j - 1, before.cap as int)] is Some <==> j - 1 < before.len);
                }
            }
            assert(self@ =~= put_front(before@, elem)) by {
                assert forall|j: int| 0 < j < self.len implies
                    slot(f as int, j, self.cap as int) == slot(before.front as int, j - 1, before.cap as int) by {}
            }
        }
    }

    /// Removes and returns the back element, or `None` when the deque is
    /// empty.  The slot read is the floor modulo of `back - 1`.  Afterwards
    /// the buffer is halved when more than half of it is unused and it holds
    /// more than four slots.
    pub fn pop_back(&mut self) -> (r: Option<T>)
        requires
            old(self).wf(),
        ensures
            final(self).wf(),
            (r, final(self)@) == take_back(old(self)@),
            final(self).spec_capacity() == if old(self)@.len() == 0 {
                old(self).spec_capacity()
            } else {
                Self::cap_after_remove(old(self).spec_capacity(), final(self)@.len())
            },
    {
        if self.len == 0 {
            return None;
        }
        let ghost before = *self;
        let b = prev_index(self.back, self.cap);
        let elem = self.buf[b].take();
        self.back = b;
        self.len = self.len - 1;
        proof {
            assert(b == slot(before.front as int, before.len - 1, before.cap as int));
            assert forall|j: int| 0 <= j < self.cap implies
                (#[trigger] self.buf@[slot(self.front as int, j, self.cap as int)] is Some <==> j < self.len) by {
                if j != self.len {
                    assert(before.buf@[slot(before.front as int, j, before.cap as int)] is Some <==> j < before.len);
                }
            }
            assert(self@ =~= before@.drop_last());
        }
        if self.len < self.cap - self.len && self.cap > 4 {
            proof { lemma_pow2_halve(self.cap as nat); }
            self.resize(self.cap / 2);
        }
        elem
    }

    /// Whether the deque holds no element.
    pub fn is_empty(&self) -> (r: bool)
        requires
            self.wf(),
        ensures
            r == (self@.len() == 0),
    {
        self.len == 0
    }

    /// The number of elements in the deque.
    pub fn len(&self) -> (r: usize)
        requires
            self.wf(),
        ensures
            r == self@.len(),
    {
        self.len
    }

    /// The bounds that every well-formed deque keeps: at least four slots,
    /// no more elements than slots, and a capacity of four or at most
    /// twice the length.
    pub proof fn lemma_capacity_bounds(&self)
        requires
            self.wf(),
        ensures
            4 <= self.spec_capacity(),
            self@.len() <= self.spec_capacity(),
            self.spec_capacity() == 4 || self.spec_capacity() <= 2 * self@.len(),
    {
    }

    /// The number of slots the buffer currently holds.
    pub fn capacity(&self) -> (r: usize)
        ensures
            r == self.spec_capacity(),
    {
        self.cap
    }

    /// Moves the live elements into a fresh buffer of `new_cap` slots, laid
    /// out from slot 0 in front-to-back order.
    fn resize(&mut self, new_cap: usize)
        requires
            old(self).wf_layout(),
            old(self).len < new_cap,
            4 <= new_cap,
            is_pow2(new_cap as nat),
        ensures
            final(self).wf_layout(),
            final(self)@ == old(self)@,
            final(self).len == old(self).len,
            final(self).cap == new_cap,
            final(self).front == 0,
            final(self).back == final(self).len,
    {
        let ghost before = *self;
        let mut fresh: Vec<Option<T>> = Vec::new();
        let mut j: usize = 0;
        let mut at = self.front;
        while j < self.len
            invariant
                before.wf_layout(),
                self.cap == before.cap,
                self.len == before.len,
                self.front == before.front,
                j <= self.len,
                j < self.len ==> at == slot(self.front as int, j as int, self.cap as int),
                self.buf@.len() == self.cap,
                fresh@.len() == j,
                forall|k: int| 0 <= k < j ==> #[trigger] fresh@[k] == Some(before@[k]),
                forall|k: int| j <= k < self.cap ==>
                    #[trigger] self.buf@[slot(self.front as int, k, self.cap as int)]
                        == before.buf@[slot(self.front as int, k, self.cap as int)],
            decreases self.len - j,
        {
            assert(before.buf@[slot(self.front as int, j as int, self.cap as int)] is Some);
            let x = self.buf[at].take();
            proof {
                assert forall|k: int| j + 1 <= k < self.cap implies
                    #[trigger] self.buf@[slot(self.front as int, k, self.cap as int)]
                        == before.buf@[slot(self.front as int, k, self.cap as int)] by {
                    assert(slot(self.front as int, k, self.cap as int) != slot(self.front as int, j as int, self.cap as int));
                }
            }
            fresh.push(x);
            if j + 1 < self.len {
                at = next_index(at, self.cap);
            }
            j = j + 1;
        }
        let mut i: usize = self.len;
        while i < new_cap
            invariant
                before.len <= i <= new_cap,
                fresh@.len() == i,
                forall|k: int| 0 <= k < before.len ==> #[trigger] fresh@[k] == Some(before@[k]),
                forall|k: int| before.len <= k < i ==> #[trigger] fresh@[k] is None,
            decreases new_cap - i,
        {
            fresh.push(None);
            i = i + 1;
        }
        self.buf = fresh;
        self.cap = new_cap;
        self.front = 0;
        self.back = self.len;
        proof {
            assert forall|j: int| 0 <= j < self.cap implies
                (#[trigger] self.buf@[slot(self.front as int, j, self.cap as int)] is Some <==> j < self.len) by {
                if j < self.len {
                    assert(fresh@[j] == Some(before@[j]));
                }
            }
            assert(self@ =~= before@);
        }
    }
}

} // verus!
