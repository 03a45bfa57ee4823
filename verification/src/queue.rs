use vstd::prelude::*;

verus! {

/// What taking the front item off a queue whose items, front first, are `s`
/// gives: the item (none when the queue is empty) and the items left.
pub open spec fn dequeue_outcome<T>(s: Seq<T>) -> (Option<T>, Seq<T>) {
    if s.len() == 0 {
        (None, s)
    } else {
        (Some(s[0]), s.drop_first())
    }
}

/// A first-in, first-out queue.
///
/// The items are kept in two stacks: `back` receives new items at its end,
/// and `front` holds the oldest items with the very oldest at its end, so
/// both ends of the queue are reached in constant time.  When `front` runs
/// dry, the whole of `back` is moved over onto it, reversed.
pub struct Queue<T> {
    front: Vec<T>,
    back: Vec<T>,
}

impl<T> View for Queue<T> {
    type V = Seq<T>;

    /// The items of the queue, the next one to leave first.
    closed spec fn view(&self) -> Seq<T> {
        self.front@.reverse() + self.back@
    }
}

impl<T> Queue<T> {
    /// An empty queue.
    pub fn new() -> (q: Self)
        ensures
            q@ == Seq::<T>::empty(),
    {
        let q = Queue { front: Vec::new(), back: Vec::new() };
        assert(q@ =~= Seq::<T>::empty());
        q
    }

    /// Puts `value` at the back of the queue.
    pub fn enqueue(&mut self, value: T)
        ensures
            final(self)@ == old(self)@.push(value),
    {
        self.back.push(value);
        assert(self@ =~= old(self)@.push(value));
    }

    /// Takes the item at the front of the queue off it and returns it;
    /// returns `None`, leaving the queue as it is, when it is empty.
    pub fn dequeue(&mut self) -> (r: Option<T>)
        ensures
            (r, final(self)@) == dequeue_outcome(old(self)@),
    {
        if self.front.len() == 0 {
            assert(self.front@.reverse() =~= Seq::<T>::empty());
            assert(self@ =~= self.back@);
            while self.back.len() > 0
                invariant
                    self.back@ + self.front@.reverse() == old(self)@,
                decreases self.back.len(),
            {
                let ghost b = self.back@;
                let ghost f = self.front@;
                let x = self.back.pop().unwrap();
                self.front.push(x);
                assert(self.front@.reverse() =~= seq![x] + f.reverse());
                assert(b =~= self.back@.push(x));
                assert(self.back@ + self.front@.reverse() =~= b + f.reverse());
            }
            assert(self.back@ =~= Seq::<T>::empty());
            assert(self@ =~= old(self)@);
        }
        let ghost f = self.front@;
        let r = self.front.pop();
        proof {
            if f.len() > 0 {
                assert(f.reverse() =~= seq![f.last()] + self.front@.reverse());
                assert(self@ =~= old(self)@.drop_first());
            }
        }
        r
    }

    /// Whether the queue holds no item.
    pub fn is_empty(&self) -> (b: bool)
        ensures
            b == (self@.len() == 0),
    {
        self.front.len() == 0 && self.back.len() == 0
    }

    /// A walk over the items of the queue, front to back, that leaves the
    /// queue as it is.  The walk holds its own clones of the items, taken
    /// now, so the queue may change while the walk goes on; items put into
    /// the queue after the walk starts are not visited.
    pub fn iter(&self) -> (it: QueueIter<T>)
        where T: Clone,
        ensures
            it.remaining().len() == self@.len(),
            forall|i: int|
                0 <= i < self@.len() ==> vstd::pervasive::strictly_cloned(self@[i], #[trigger] it.remaining()[i]),
    {
        let ghost q = self@;
        let ghost n = q.len();
        let f = self.front.len();
        let b = self.back.len();
        // `rest` holds the clones last item first, so that the next one to
        // visit is at its end.
        let mut rest: Vec<T> = Vec::new();
        for j in 0..b
            invariant
                q == self@,
                n == q.len() == f + b,
                b == self.back.len(),
                f == self.front.len(),
                rest.len() == j,
                forall|k: int| 0 <= k < j ==> vstd::pervasive::strictly_cloned(q[n - 1 - k], #[trigger] rest@[k]),
        {
            let x = self.back[b - 1 - j].clone();
            assert(q[n - 1 - j] == self.back@[b - 1 - j]);
            rest.push(x);
        }
        for j in 0..f
            invariant
                q == self@,
                n == q.len() == f + b,
                b == self.back.len(),
                f == self.front.len(),
                rest.len() == b + j,
                forall|k: int| 0 <= k < b + j ==> vstd::pervasive::strictly_cloned(q[n - 1 - k], #[trigger] rest@[k]),
        {
            let x = self.front[j].clone();
            assert(q[n - 1 - (b + j)] == self.front@.reverse()[f - 1 - j]);
            rest.push(x);
        }
        let it = QueueIter { rest };
        assert forall|i: int| 0 <= i < n implies vstd::pervasive::strictly_cloned(q[i], #[trigger] it.remaining()[i]) by {
            assert(it.remaining()[i] == rest@[n - 1 - i]);
        }
        it
    }
}

/// A walk over the items of a queue, front to back.
pub struct QueueIter<T> {
    /// The items still to visit, the next one last.
    rest: Vec<T>,
}

impl<T> QueueIter<T> {
    /// The items that the walk has still to visit, in order.
    pub closed spec fn remaining(&self) -> Seq<T> {
        self.rest@.reverse()
    }

    /// Visits the next item and returns it; returns `None`, changing
    /// nothing, when every item has been visited.
    pub fn next(&mut self) -> (r: Option<T>)
        ensures
            (r, final(self).remaining()) == dequeue_outcome(old(self).remaining()),
    {
        let ghost rem = self.remaining();
        let r = self.rest.pop();
        proof {
            if rem.len() > 0 {
                assert(rem[0] == old(self).rest@.last());
                assert(self.remaining() =~= rem.drop_first());
            } else {
                assert(rem =~= Seq::<T>::empty());
            }
        }
        r
    }
}

/// Two walks over the same queue give the same items, for an item type
/// whose clones of one value are all equal.
pub proof fn lemma_walks_agree<T: Clone>(q: Seq<T>, w1: Seq<T>, w2: Seq<T>)
    requires
        w1.len() == q.len(),
        w2.len() == q.len(),
        forall|i: int| 0 <= i < q.len() ==> vstd::pervasive::strictly_cloned(q[i], #[trigger] w1[i]),
        forall|i: int| 0 <= i < q.len() ==> vstd::pervasive::strictly_cloned(q[i], #[trigger] w2[i]),
        forall|a: T, b: T, c: T|
            vstd::pervasive::strictly_cloned(a, b) && vstd::pervasive::strictly_cloned(a, c) ==> b
                == c,
    ensures
        w1 == w2,
{
    assert forall|i: int| 0 <= i < q.len() implies w1[i] == w2[i] by {
        assert(vstd::pervasive::strictly_cloned(q[i], w1[i]));
        assert(vstd::pervasive::strictly_cloned(q[i], w2[i]));
    }
    assert(w1 =~= w2);
}

/// The items that taking the front item off, again and again until the
/// queue is empty, gives, in the order they come.
pub open spec fn drained<T>(s: Seq<T>) -> Seq<T>
    decreases s.len(),
{
    match dequeue_outcome(s) {
        (Some(x), rest) => seq![x] + drained(rest),
        _ => Seq::empty(),
    }
}

/// The items of a queue whose items were `s`, after `xs` were put at its
/// back one after the other.
pub open spec fn enqueued_all<T>(s: Seq<T>, xs: Seq<T>) -> Seq<T>
    decreases xs.len(),
{
    if xs.len() == 0 {
        s
    } else {
        enqueued_all(s.push(xs[0]), xs.drop_first())
    }
}

/// An item put into an empty queue is the next to leave it, and the queue
/// is then empty again.
pub proof fn lemma_enqueue_then_dequeue_empty<T>(x: T)
    ensures
        dequeue_outcome(Seq::<T>::empty().push(x)) == (Some(x), Seq::<T>::empty()),
{
    assert(Seq::<T>::empty().push(x).drop_first() =~= Seq::<T>::empty());
}

/// On a queue that is not empty, putting an item at the back does not
/// change which item leaves next: taking it off before or after the new
/// item comes in gives the same item and the same queue.
pub proof fn lemma_enqueue_dequeue_commute<T>(s: Seq<T>, x: T)
    requires
        s.len() > 0,
    ensures
        dequeue_outcome(s.push(x)).0 == dequeue_outcome(s).0,
        dequeue_outcome(s.push(x)).1 == dequeue_outcome(s).1.push(x),
{
    assert(s.push(x).drop_first() =~= s.drop_first().push(x));
}

/// A queue is empty exactly when taking an item off it gives none.
pub proof fn lemma_empty_iff_nothing_to_dequeue<T>(s: Seq<T>)
    ensures
        (s.len() == 0) <==> dequeue_outcome(s).0 is None,
{
}

/// Taking items off a queue until it is empty gives all of its items,
/// front to back.
pub proof fn lemma_drained_is_contents<T>(s: Seq<T>)
    ensures
        drained(s) == s,
    decreases s.len(),
{
    if s.len() > 0 {
        lemma_drained_is_contents(s.drop_first());
        assert(seq![s[0]] + s.drop_first() =~= s);
    }
}

/// Putting `xs` into a queue one after the other appends them, in order,
/// behind the items already there.
pub proof fn lemma_enqueued_all_appends<T>(s: Seq<T>, xs: Seq<T>)
    ensures
        enqueued_all(s, xs) == s + xs,
    decreases xs.len(),
{
    if xs.len() > 0 {
        lemma_enqueued_all_appends(s.push(xs[0]), xs.drop_first());
        assert(s.push(xs[0]) + xs.drop_first() =~= s + xs);
    }
}

/// First in, first out: items put into an empty queue one after the other
/// leave it in the order in which they were put in.
pub proof fn lemma_first_in_first_out<T>(xs: Seq<T>)
    ensures
        drained(enqueued_all(Seq::<T>::empty(), xs)) == xs,
{
    lemma_enqueued_all_appends(Seq::<T>::empty(), xs);
    assert(Seq::<T>::empty() + xs =~= xs);
    lemma_drained_is_contents(xs);
}

} // verus!
