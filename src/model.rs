//! Mathematical model shared by the three collections.
//!
//! Every collection is viewed as a `Seq<T>` whose index 0 is the front (the
//! oldest element of a queue, the bottom of a stack) and whose last index is
//! the back (the newest element of a queue, the top of a stack).  The spec
//! functions below say what each operation does to that view; the executable
//! operations state their effect through them.
use vstd::prelude::*;

verus! {

/// Inserting `x` at the back.
pub open spec fn put_back<T>(v: Seq<T>, x: T) -> Seq<T> {
    v.push(x)
}

/// Inserting `x` at the front.
pub open spec fn put_front<T>(v: Seq<T>, x: T) -> Seq<T> {
    seq![x] + v
}

/// Removing at the front: the element removed (none when `v` is empty) and
/// what is left.
pub open spec fn take_front<T>(v: Seq<T>) -> (Option<T>, Seq<T>) {
    if v.len() == 0 {
        (None, v)
    } else {
        (Some(v[0]), v.drop_first())
    }
}

/// Removing at the back: the element removed (none when `v` is empty) and
/// what is left.
pub open spec fn take_back<T>(v: Seq<T>) -> (Option<T>, Seq<T>) {
    if v.len() == 0 {
        (None, v)
    } else {
        (Some(v.last()), v.drop_last())
    }
}

/// Inserting each element of `xs` at the back, first to last.
pub open spec fn put_back_all<T>(v: Seq<T>, xs: Seq<T>) -> Seq<T>
    decreases xs.len(),
{
    if xs.len() == 0 {
        v
    } else {
        put_back_all(put_back(v, xs[0]), xs.drop_first())
    }
}

/// Inserting each element of `xs` at the front, first to last.
pub open spec fn put_front_all<T>(v: Seq<T>, xs: Seq<T>) -> Seq<T>
    decreases xs.len(),
{
    if xs.len() == 0 {
        v
    } else {
        put_front_all(put_front(v, xs[0]), xs.drop_first())
    }
}

/// `out` with the removed element, if any, in front of it.
pub open spec fn prepend_removed<T>(r: Option<T>, out: Seq<T>) -> Seq<T> {
    match r {
        Some(x) => seq![x] + out,
        None => out,
    }
}

/// Removing at the front `n` times: the elements that came out, in the order
/// they came out, and what is left.
pub open spec fn take_front_n<T>(v: Seq<T>, n: nat) -> (Seq<T>, Seq<T>)
    decreases n,
{
    if n == 0 {
        (Seq::empty(), v)
    } else {
        let (r, w) = take_front(v);
        let (out, rest) = take_front_n(w, (n - 1) as nat);
        (prepend_removed(r, out), rest)
    }
}

/// Removing at the back `n` times: the elements that came out, in the order
/// they came out, and what is left.
pub open spec fn take_back_n<T>(v: Seq<T>, n: nat) -> (Seq<T>, Seq<T>)
    decreases n,
{
    if n == 0 {
        (Seq::empty(), v)
    } else {
        let (r, w) = take_back(v);
        let (out, rest) = take_back_n(w, (n - 1) as nat);
        (prepend_removed(r, out), rest)
    }
}

/// One operation on a collection.
pub enum Op<T> {
    PushBack(T),
    PushFront(T),
    PopBack,
    PopFront,
}

/// One operation `op` on a collection with contents `v`: the element removed,
/// if any, and the contents afterwards.  Each operation's contract states
/// this relation between its result and the view before and after.
pub open spec fn step<T>(v: Seq<T>, op: Op<T>) -> (Option<T>, Seq<T>) {
    match op {
        Op::PushBack(x) => (None, put_back(v, x)),
        Op::PushFront(x) => (None, put_front(v, x)),
        Op::PopBack => take_back(v),
        Op::PopFront => take_front(v),
    }
}

/// Running `ops` on a collection with contents `v`: the elements removed, in
/// the order they came out, and the contents at the end.
pub open spec fn run<T>(v: Seq<T>, ops: Seq<Op<T>>) -> (Seq<T>, Seq<T>)
    decreases ops.len(),
{
    if ops.len() == 0 {
        (Seq::empty(), v)
    } else {
        let (r, w) = step(v, ops[0]);
        let (out, last) = run(w, ops.drop_first());
        (prepend_removed(r, out), last)
    }
}

/// The elements inserted by `ops`, in the order of the operations.
pub open spec fn inserted<T>(ops: Seq<Op<T>>) -> Seq<T>
    decreases ops.len(),
{
    if ops.len() == 0 {
        Seq::empty()
    } else {
        let here = match ops[0] {
            Op::PushBack(x) | Op::PushFront(x) => seq![x],
            _ => Seq::empty(),
        };
        here + inserted(ops.drop_first())
    }
}

/// Whether `views` and `outs` record a run of `ops` one call at a time: call
/// `i` turned contents `views[i]` into `views[i + 1]` and returned `outs[i]`,
/// as the contract of the operation states.
pub open spec fn is_trace<T>(views: Seq<Seq<T>>, ops: Seq<Op<T>>, outs: Seq<Option<T>>) -> bool {
    &&& views.len() == ops.len() + 1
    &&& outs.len() == ops.len()
    &&& forall|i: int| 0 <= i < ops.len() ==> #[trigger] step(views[i], ops[i]) == (outs[i], views[i + 1])
}

/// The elements among `outs`, in order.
pub open spec fn removed<T>(outs: Seq<Option<T>>) -> Seq<T>
    decreases outs.len(),
{
    if outs.len() == 0 {
        Seq::empty()
    } else {
        prepend_removed(outs[0], removed(outs.drop_first()))
    }
}

/// The number of insertions among `ops`.
pub open spec fn insertions<T>(ops: Seq<Op<T>>) -> nat
    decreases ops.len(),
{
    if ops.len() == 0 {
        0
    } else {
        let here: nat = match ops[0] {
            Op::PushBack(_) | Op::PushFront(_) => 1,
            _ => 0,
        };
        here + insertions(ops.drop_first())
    }
}

proof fn lemma_put_back_all<T>(v: Seq<T>, xs: Seq<T>)
    ensures
        put_back_all(v, xs) == v + xs,
    decreases xs.len(),
{
    if xs.len() > 0 {
        lemma_put_back_all(put_back(v, xs[0]), xs.drop_first());
        assert(v.push(xs[0]) + xs.drop_first() =~= v + xs);
    } else {
        assert(v + xs =~= v);
    }
}

proof fn lemma_put_front_all<T>(v: Seq<T>, xs: Seq<T>)
    ensures
        put_front_all(v, xs) == xs.reverse() + v,
    decreases xs.len(),
{
    if xs.len() > 0 {
        lemma_put_front_all(put_front(v, xs[0]), xs.drop_first());
        assert(xs.drop_first().reverse() + (seq![xs[0]] + v) =~= xs.reverse() + v);
    } else {
        assert(xs.reverse() + v =~= v);
    }
}

proof fn lemma_take_front_n<T>(a: Seq<T>, w: Seq<T>, j: nat)
    requires
        j <= a.len(),
    ensures
        take_front_n(a + w, j) == (a.take(j as int), a.skip(j as int) + w),
    decreases j,
{
    if j > 0 {
        assert((a + w).drop_first() =~= a.drop_first() + w);
        lemma_take_front_n(a.drop_first(), w, (j - 1) as nat);
        assert(seq![a[0]] + a.drop_first().take(j - 1) =~= a.take(j as int));
        assert(a.drop_first().skip(j - 1) =~= a.skip(j as int));
    } else {
        assert(a.take(0) =~= Seq::<T>::empty());
        assert(a.skip(0) =~= a);
    }
}

proof fn lemma_take_back_n<T>(v: Seq<T>, xs: Seq<T>, j: nat)
    requires
        j <= xs.len(),
    ensures
        take_back_n(v + xs, j) == (xs.reverse().take(j as int), v + xs.take(xs.len() - j)),
    decreases j,
{
    if j > 0 {
        assert((v + xs).drop_last() =~= v + xs.drop_last());
        assert((v + xs).last() == xs.last());
        lemma_take_back_n(v, xs.drop_last(), (j - 1) as nat);
        assert(seq![xs.last()] + xs.drop_last().reverse().take(j - 1) =~= xs.reverse().take(j as int));
        assert(xs.drop_last().take(xs.len() - 1 - (j - 1)) =~= xs.take(xs.len() - j));
    } else {
        assert(xs.reverse().take(0) =~= Seq::<T>::empty());
        assert(xs.take(xs.len() as int) =~= xs);
    }
}

/// First in, first out: inserting `xs` at the back of a collection holding
/// `v` and then removing at the front until it is empty gives `v` followed by
/// `xs`, each in the order it went in.  This is what `Queue::enqueue` and
/// `Queue::dequeue`, and `Deque::push_back` and `Deque::pop_front`, do.
pub proof fn lemma_fifo<T>(v: Seq<T>, xs: Seq<T>)
    ensures
        take_front_n(put_back_all(v, xs), v.len() + xs.len()) == (v + xs, Seq::<T>::empty()),
{
    lemma_put_back_all(v, xs);
    lemma_take_front_n(v + xs, Seq::<T>::empty(), v.len() + xs.len());
    assert((v + xs).take((v.len() + xs.len()) as int) =~= v + xs);
    assert((v + xs).skip((v.len() + xs.len()) as int) + Seq::<T>::empty() =~= Seq::<T>::empty());
}

/// Last in, first out at the back: inserting `xs` at the back of a
/// collection holding `v` and then removing at the back `j` times (at most
/// `xs.len()`) gives the last `j` elements of `xs`, newest first, and leaves
/// `v` followed by the rest of `xs`; after `xs.len()` removals, `v` alone.
/// This is what `Stack::push` and `Stack::pop`, and `Deque::push_back` and
/// `Deque::pop_back`, do.
pub proof fn lemma_lifo_back<T>(v: Seq<T>, xs: Seq<T>, j: nat)
    requires
        j <= xs.len(),
    ensures
        take_back_n(put_back_all(v, xs), j) == (xs.reverse().take(j as int), v + xs.take(xs.len() - j)),
        take_back_n(put_back_all(v, xs), xs.len()) == (xs.reverse(), v),
{
    lemma_put_back_all(v, xs);
    lemma_take_back_n(v, xs, j);
    lemma_take_back_n(v, xs, xs.len());
    assert(xs.reverse().take(xs.len() as int) =~= xs.reverse());
    assert(v + xs.take(0) =~= v);
}

/// Last in, first out at the front: inserting `xs` at the front of a
/// collection holding `v` and then removing at the front `j` times (at most
/// `xs.len()`) gives the last `j` elements of `xs`, newest first; after
/// `xs.len()` removals, `v` is left.  This is what `Deque::push_front` and
/// `Deque::pop_front` do.
pub proof fn lemma_lifo_front<T>(v: Seq<T>, xs: Seq<T>, j: nat)
    requires
        j <= xs.len(),
    ensures
        take_front_n(put_front_all(v, xs), j).0 == xs.reverse().take(j as int),
        take_front_n(put_front_all(v, xs), xs.len()) == (xs.reverse(), v),
{
    lemma_put_front_all(v, xs);
    lemma_take_front_n(xs.reverse(), v, j);
    lemma_take_front_n(xs.reverse(), v, xs.len());
    assert(xs.reverse().take(xs.len() as int) =~= xs.reverse());
    assert(xs.reverse().skip(xs.len() as int) + v =~= v);
}

/// The length after any run of operations is the length before, plus the
/// insertions, minus the elements removed; a removal from an empty collection
/// removes nothing.
pub proof fn lemma_length<T>(v: Seq<T>, ops: Seq<Op<T>>)
    ensures
        run(v, ops).1.len() + run(v, ops).0.len() == v.len() + insertions(ops),
    decreases ops.len(),
{
    if ops.len() > 0 {
        let w = step(v, ops[0]).1;
        lemma_length(w, ops.drop_first());
    }
}

/// Removing from an empty collection yields nothing and leaves it empty, at
/// either end, and an element inserted afterwards is the next one removed.
pub proof fn lemma_empty_exhaustion<T>(x: T)
    ensures
        take_front(Seq::<T>::empty()) == (None::<T>, Seq::<T>::empty()),
        take_back(Seq::<T>::empty()) == (None::<T>, Seq::<T>::empty()),
        take_front(put_back(take_front(Seq::<T>::empty()).1, x)) == (Some(x), Seq::<T>::empty()),
        take_back(put_back(take_back(Seq::<T>::empty()).1, x)) == (Some(x), Seq::<T>::empty()),
        take_front(put_front(take_front(Seq::<T>::empty()).1, x)) == (Some(x), Seq::<T>::empty()),
        take_back(put_front(take_back(Seq::<T>::empty()).1, x)) == (Some(x), Seq::<T>::empty()),
{
    assert(Seq::<T>::empty().push(x).drop_first() =~= Seq::<T>::empty());
    assert(Seq::<T>::empty().push(x).drop_last() =~= Seq::<T>::empty());
    assert(seq![x] + Seq::<T>::empty() =~= seq![x]);
    assert(seq![x].drop_first() =~= Seq::<T>::empty());
    assert(seq![x].drop_last() =~= Seq::<T>::empty());
}

/// Filling, draining and refilling loses nothing: after `xs` went in at the
/// back and all of it came out at the front, `ys` going in at the back comes
/// out at the front in order, and the collection is empty again.
pub proof fn lemma_refill<T>(xs: Seq<T>, ys: Seq<T>)
    ensures
        take_front_n(put_back_all(Seq::<T>::empty(), xs), xs.len()) == (xs, Seq::<T>::empty()),
        take_front_n(put_back_all(take_front_n(put_back_all(Seq::<T>::empty(), xs), xs.len()).1, ys), ys.len())
            == (ys, Seq::<T>::empty()),
{
    lemma_fifo(Seq::<T>::empty(), xs);
    lemma_fifo(Seq::<T>::empty(), ys);
    assert(Seq::<T>::empty() + xs =~= xs);
    assert(Seq::<T>::empty() + ys =~= ys);
}

/// A recorded sequence of calls is a run: what the calls returned, in order,
/// and the contents after the last call are those that `run` gives from the
/// contents before the first.
pub proof fn lemma_trace<T>(views: Seq<Seq<T>>, ops: Seq<Op<T>>, outs: Seq<Option<T>>)
    requires
        is_trace(views, ops, outs),
    ensures
        run(views[0], ops) == (removed(outs), views.last()),
    decreases ops.len(),
{
    if ops.len() > 0 {
        assert(step(views[0], ops[0]) == (outs[0], views[1]));
        let v2 = views.drop_first();
        let o2 = ops.drop_first();
        let r2 = outs.drop_first();
        assert forall|i: int| 0 <= i < o2.len() implies #[trigger] step(v2[i], o2[i]) == (r2[i], v2[i + 1]) by {
            assert(step(views[i + 1], ops[i + 1]) == (outs[i + 1], views[i + 2]));
        }
        lemma_trace(v2, o2, r2);
    }
}

/// First in, first out, under any interleaving: when every operation inserts
/// at the back or removes at the front, the elements removed followed by
/// those left are the elements there at the start followed by those
/// inserted.  So elements come out in the order they went in, and the `k`-th
/// removal that finds an element returns the `k`-th element of `v + inserted(ops)`.
pub proof fn lemma_fifo_interleaved<T>(v: Seq<T>, ops: Seq<Op<T>>)
    requires
        forall|i: int| 0 <= i < ops.len() ==> (#[trigger] ops[i] is PushBack || ops[i] is PopFront),
    ensures
        run(v, ops).0 + run(v, ops).1 == v + inserted(ops),
    decreases ops.len(),
{
    if ops.len() > 0 {
        let rest = ops.drop_first();
        assert forall|i: int| 0 <= i < rest.len() implies (#[trigger] rest[i] is PushBack || rest[i] is PopFront) by {
            assert(ops[i + 1] is PushBack || ops[i + 1] is PopFront);
        }
        assert(ops[0] is PushBack || ops[0] is PopFront);
        let w = step(v, ops[0]).1;
        lemma_fifo_interleaved(w, rest);
        match ops[0] {
            Op::PushBack(x) => {
                assert(v.push(x) + inserted(rest) =~= v + (seq![x] + inserted(rest)));
            },
            _ => {
                if v.len() > 0 {
                    assert(seq![v[0]] + run(w, rest).0 + run(w, rest).1 =~= seq![v[0]] + (w + inserted(rest)));
                    assert(seq![v[0]] + (v.drop_first() + inserted(rest)) =~= v + inserted(rest));
                    assert(Seq::<T>::empty() + inserted(rest) =~= inserted(rest));
                } else {
                    assert(Seq::<T>::empty() + inserted(rest) =~= inserted(rest));
                }
            },
        }
    } else {
        assert(run(v, ops).0 + run(v, ops).1 =~= v + inserted(ops));
    }
}

} // verus!
