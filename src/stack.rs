//! A last-in first-out stack over a linear buffer.
use crate::model::{put_back, take_back};
use crate::ring::{is_pow2, lemma_pow2_double, lemma_pow2_four, lemma_pow2_halve};
use vstd::prelude::*;

verus! {

/// A LIFO stack: elements go in and come out at the top.
///
/// The buffer holds `cap` slots; the live elements occupy slots `0..len`,
/// bottom first, and every other slot is empty.
pub struct Stack<T> {
    buf: Vec<Option<T>>,
    cap: usize,
    len: usize,
}

impl<T> View for Stack<T> {
    type V = Seq<T>;

    /// The live elements, bottom first: the top is the last one.
    closed spec fn view(&self) -> Seq<T> {
        Seq::new(self.len as nat, |j: int| self.buf@[j]->Some_0)
    }
}

impl<T> Stack<T> {
    /// The number of slots the buffer currently holds.
    pub closed spec fn spec_capacity(&self) -> nat {
        self.cap as nat
    }

    /// The layout of the buffer: the live slots filled and every other slot
    /// empty, and a capacity that is a power of two no smaller than four.
    closed spec fn wf_layout(&self) -> bool {
        &&& self.buf@.len() == self.cap
        &&& 4 <= self.cap
        &&& is_pow2(self.cap as nat)
        &&& self.len <= self.cap
        &&& forall|j: int| 0 <= j < self.cap ==> (#[trigger] self.buf@[j] is Some <==> j < self.len)
    }

    /// The internal invariant: the layout above, with a capacity of four or
    /// at most two slots more than twice the length (the stack halves its
    /// buffer before it removes an element, not after).
    pub closed spec fn wf(&self) -> bool {
        &&& self.wf_layout()
        &&& self.cap == 4 || self.cap <= 2 * self.len + 2
    }

    /// The capacity after a push onto a stack of length `len` and capacity
    /// `cap`: doubled when the buffer was full.
    pub open spec fn cap_after_push(cap: nat, len: nat) -> nat {
        if len == cap { 2 * cap } else { cap }
    }

    /// The capacity after a pop from a non-empty stack of length `len` (the
    /// length before the pop) and capacity `cap`: halved when more than half
    /// of it is unused, above four.
    pub open spec fn cap_after_pop(cap: nat, len: nat) -> nat {
        if cap > 4 && cap > 2 * len { cap / 2 } else { cap }
    }

    /// An empty stack with room for four elements.
    pub fn new() -> (r: Self)
        ensures
            r.wf(),
            r@ == Seq::<T>::empty(),
            r.spec_capacity() == 4,
    {
        let r = Stack { buf: Self::empty_slots(4), cap: 4, len: 0 };
        proof { lemma_pow2_four(); }
        assert(r@ =~= Seq::<T>::empty());
        r
    }

    /// A buffer of `n` empty slots.
    fn empty_slots(n: usize) -> (r: Vec<Option<T>>)
        ensures
            r@.len() == n,
            forall|i: int| 0 <= i < n ==> r@[i] is None,
    {
        let mut r: Vec<Option<T>> = Vec::new();
        let mut i: usize = 0;
        while i < n
            invariant
                i <= n,
                r@.len() == i,
                forall|k: int| 0 <= k < i ==> r@[k] is None,
            decreases n - i,
        {
            r.push(None);
            i = i + 1;
        }
        r
    }

    /// Puts `elem` on top, doubling the buffer first when it is full.
    pub fn push(&mut self, elem: T)
        requires
            old(self).wf(),
            old(self)@.len() < usize::MAX / 2,
        ensures
            final(self).wf(),
            final(self)@ == put_back(old(self)@, elem),
            final(self).spec_capacity() == Self::cap_after_push(old(self).spec_capacity(), old(self)@.len()),
    {
        self.grow_if_no_space_left();
        let ghost before = *self;
        self.buf.set(self.len, Some(elem));
        self.len = self.len + 1;
        assert(self@ =~= put_back(before@, elem));
    }

    /// Removes and returns the top element, or `None` when the stack is
    /// empty.  Before removing, the buffer is halved when more than half of it
    /// is unused and it holds more than four slots.
    pub fn pop(&mut self) -> (r: Option<T>)
        requires
            old(self).wf(),
        ensures
            final(self).wf(),
            (r, final(self)@) == take_back(old(self)@),
            final(self).spec_capacity() == if old(self)@.len() == 0 {
                old(self).spec_capacity()
            } else {
                Self::cap_after_pop(old(self).spec_capacity(), old(self)@.len())
            },
    {
        if self.is_empty() {
            return None;
        }
        self.shrink_if_too_much_space();
        let ghost before = *self;
        let top = self.len - 1;
        let elem = self.buf[top].take();
        self.len = top;
        assert(self@ =~= before@.drop_last());
        elem
    }

    /// The top element, or `None` when the stack is empty.
    pub fn peek(&self) -> (r: Option<&T>)
        requires
            self.wf(),
        ensures
            r == (if self@.len() == 0 { None } else { Some(&self@.last()) }),
    {
        if self.is_empty() {
            return None;
        }
        self.buf[self.len - 1].as_ref()
    }

    /// A mutable borrow of the top element, or `None` when the stack is
    /// empty.  Whatever is written through it becomes the new top.
    pub fn peek_mut(&mut self) -> (r: Option<&mut T>)
        requires
            old(self).wf(),
        ensures
            final(self).wf(),
            final(self).spec_capacity() == old(self).spec_capacity(),
            old(self)@.len() == 0 ==> r is None && final(self)@ == old(self)@,
            old(self)@.len() > 0 ==> r is Some,
            match r {
                Some(m) => *m == old(self)@.last()
                    && final(self)@ == old(self)@.update(old(self)@.len() - 1, *final(m)),
                None => final(self)@ == old(self)@,
            },
    {
        if self.len == 0 {
            return None;
        }
        let top = self.len - 1;
        match &mut self.buf[top] {
            Some(x) => Some(x),
            None => None,
        }
    }

    /// Whether the stack holds no element.
    pub fn is_empty(&self) -> (r: bool)
        requires
            self.wf(),
        ensures
            r == (self@.len() == 0),
    {
        self.len == 0
    }

    /// The bounds that every well-formed stack keeps: at least four slots,
    /// no more elements than slots, and a capacity of four or at most
    /// two slots more than twice the length.
    pub proof fn lemma_capacity_bounds(&self)
        requires
            self.wf(),
        ensures
            4 <= self.spec_capacity(),
            self@.len() <= self.spec_capacity(),
            self.spec_capacity() == 4 || self.spec_capacity() <= 2 * self@.len() + 2,
    {
    }

    /// The number of slots the buffer currently holds.
    pub fn capacity(&self) -> (r: usize)
        ensures
            r == self.spec_capacity(),
    {
        self.cap
    }

    /// Doubles the buffer when every slot is in use.
    fn grow_if_no_space_left(&mut self)
        requires
            old(self).wf(),
            old(self).len < usize::MAX / 2,
        ensures
            final(self).wf(),
            final(self)@ == old(self)@,
            final(self).len < final(self).cap,
            final(self).cap == Self::cap_after_push(old(self).cap as nat, old(self).len as nat),
    {
        if self.cap == self.len {
            let new_cap = self.cap * 2;
            proof { lemma_pow2_double(self.cap as nat); }
            self.resize(new_cap);
        }
    }

    /// Halves the buffer when more than half of it is unused and it holds
    /// more than four slots.
    fn shrink_if_too_much_space(&mut self)
        requires
            old(self).wf(),
        ensures
            final(self).wf_layout(),
            final(self)@ == old(self)@,
            final(self).cap == Self::cap_after_pop(old(self).cap as nat, old(self).len as nat),
            final(self).cap == 4 || final(self).cap <= 2 * (final(self).len - 1) + 2,
    {
        if self.cap > 4 && self.len < self.cap - self.len {
            let new_cap = self.cap / 2;
            proof { lemma_pow2_halve(self.cap as nat); }
            self.resize(new_cap);
        }
    }

    /// Moves the live elements into a fresh buffer of `new_cap` slots.
    fn resize(&mut self, new_cap: usize)
        requires
            old(self).wf_layout(),
            old(self).len <= new_cap,
            4 <= new_cap,
            is_pow2(new_cap as nat),
        ensures
            final(self).wf_layout(),
            final(self)@ == old(self)@,
            final(self).len == old(self).len,
            final(self).cap == new_cap,
    {
        let ghost before = *self;
        let mut fresh: Vec<Option<T>> = Vec::new();
        let mut j: usize = 0;
        while j < self.len
            invariant
                before.wf_layout(),
                self.cap == before.cap,
                self.len == before.len,
                j <= self.len,
                self.buf@.len() == self.cap,
                fresh@.len() == j,
                forall|k: int| 0 <= k < j ==> #[trigger] fresh@[k] == Some(before@[k]),
                forall|k: int| j <= k < self.cap ==> #[trigger] self.buf@[k] == before.buf@[k],
            decreases self.len - j,
        {
            assert(before.buf@[j as int] is Some);
            let x = self.buf[j].take();
            fresh.push(x);
            j = j + 1;
        }
        let mut i: usize = self.len;
        while i < new_cap
            invariant
                before.len <= i <= new_cap,
                fresh@.len() == i,
                forall|k: int| 0 <= k < before.len ==> #[trigger] fresh@[k] == Some(before@[k]),
                forall|k: int| before.len <= k < i ==> #[trigger] fresh@[k] is None,
            decreases new_cap - i,
        {
            fresh.push(None);
            i = i + 1;
        }
        self.buf = fresh;
        self.cap = new_cap;
        proof {
            assert forall|j: int| 0 <= j < self.cap implies (#[trigger] self.buf@[j] is Some <==> j < self.len) by {
                if j < self.len {
                    assert(fresh@[j] == Some(before@[j]));
                }
            }
            assert(self@ =~= before@);
        }
    }
}

} // verus!
