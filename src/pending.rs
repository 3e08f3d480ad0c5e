//! The replyer's pending buffer: envelopes pulled from the transport channel
//! that no receive has claimed yet, oldest first.
//!
//! A receive asks for one message type. The type test itself is a classifier
//! closure handed in by the caller; what the buffer decides is which envelope
//! is handed out and where every other envelope goes.

use vstd::prelude::*;

verus! {

/// `f` accepts every envelope.
pub open spec fn accepts_all<E, F: Fn(&E) -> bool>(f: F) -> bool {
    forall|e: &E| #[trigger] f.requires((e,))
}

/// Each answer of the classifier `f` agrees with `pred`: it claims just the
/// envelopes that `pred` selects.
pub open spec fn decides<E, F: Fn(&E) -> bool>(f: F, pred: spec_fn(E) -> bool) -> bool {
    forall|e: &E, b: bool| #[trigger] f.ensures((e,), b) ==> b == pred(*e)
}

/// `pred` selects some envelope of `q`.
pub open spec fn has_match<E>(q: Seq<E>, pred: spec_fn(E) -> bool) -> bool {
    exists|i: int| 0 <= i < q.len() && #[trigger] pred(q[i])
}

/// `i` is the position of the oldest envelope of `q` that `pred` selects.
pub open spec fn is_first_match<E>(q: Seq<E>, pred: spec_fn(E) -> bool, i: int) -> bool {
    &&& 0 <= i < q.len()
    &&& pred(q[i])
    &&& forall|j: int| 0 <= j < i ==> !#[trigger] pred(q[j])
}

/// Position of the oldest envelope of `q` that `pred` selects.
pub open spec fn first_match<E>(q: Seq<E>, pred: spec_fn(E) -> bool) -> Option<int>
    decreases q.len(),
{
    if q.len() == 0 {
        None
    } else if pred(q[0]) {
        Some(0)
    } else {
        match first_match(q.drop_first(), pred) {
            Some(i) => Some(i + 1),
            None => None,
        }
    }
}

/// A buffer scan: the oldest selected envelope leaves `q` and is handed out;
/// with none, nothing changes.
pub open spec fn take_first<E>(q: Seq<E>, pred: spec_fn(E) -> bool) -> (Option<E>, Seq<E>) {
    match first_match(q, pred) {
        Some(i) => (Some(q[i]), q.remove(i)),
        None => (None, q),
    }
}

/// An envelope `e` pulled from the channel: handed out when selected, else
/// appended to the buffer `q`.
pub open spec fn arrive<E>(q: Seq<E>, e: E, pred: spec_fn(E) -> bool) -> (Option<E>, Seq<E>) {
    if pred(e) {
        (Some(e), q)
    } else {
        (None, q.push(e))
    }
}

/// `first_match` finds exactly the oldest selected envelope, and finds none
/// when nothing is selected.
pub proof fn lemma_first_match<E>(q: Seq<E>, pred: spec_fn(E) -> bool)
    ensures
        match first_match(q, pred) {
            Some(i) => is_first_match(q, pred, i),
            None => !has_match(q, pred),
        },
    decreases q.len(),
{
    if q.len() > 0 && !pred(q[0]) {
        let t = q.drop_first();
        lemma_first_match(t, pred);
        match first_match(t, pred) {
            Some(i) => {
                assert forall|j: int| 0 <= j < i + 1 implies !#[trigger] pred(q[j]) by {
                    if j > 0 {
                        assert(q[j] == t[j - 1]);
                    }
                }
            },
            None => {
                assert forall|j: int| 0 <= j < q.len() implies !#[trigger] pred(q[j]) by {
                    if j > 0 {
                        assert(q[j] == t[j - 1]);
                    }
                }
            },
        }
    }
}

/// There is at most one oldest selected envelope.
pub proof fn lemma_first_match_unique<E>(q: Seq<E>, pred: spec_fn(E) -> bool, i: int)
    requires
        is_first_match(q, pred, i),
    ensures
        first_match(q, pred) == Some(i),
{
    lemma_first_match(q, pred);
    match first_match(q, pred) {
        Some(k) => {
            if k < i {
                assert(!pred(q[k]));
            } else if i < k {
                assert(!pred(q[i]));
            }
        },
        None => {
            assert(pred(q[i]));
        },
    }
}

/// Envelopes pulled from the transport channel and not yet claimed, in the
/// order they were pulled.
#[derive(Debug)]
pub struct PendingBuffer<E> {
    items: Vec<E>,
}

impl<E> View for PendingBuffer<E> {
    type V = Seq<E>;

    closed spec fn view(&self) -> Seq<E> {
        self.items@
    }
}

impl<E> PendingBuffer<E> {
    /// An empty buffer.
    pub fn new() -> (r: PendingBuffer<E>)
        ensures
            r@ == Seq::<E>::empty(),
    {
        PendingBuffer { items: Vec::new() }
    }

    /// Number of envelopes waiting in the buffer.
    pub fn len(&self) -> (r: usize)
        ensures
            r == self@.len(),
    {
        self.items.len()
    }

    /// Scans the buffer oldest to newest and removes and returns the first
    /// envelope that `is_match` claims; `None` when it claims none.
    pub fn take_first_match<F: Fn(&E) -> bool>(&mut self, is_match: &F) -> (r: Option<E>)
        requires
            accepts_all(*is_match),
        ensures
            forall|pred: spec_fn(E) -> bool| #[trigger]
                decides(*is_match, pred) ==> (r, final(self)@) == take_first(old(self)@, pred),
    {
        let mut i: usize = 0;
        while i < self.items.len()
            invariant
                self@ == old(self)@,
                0 <= i <= self@.len(),
                accepts_all(*is_match),
                forall|j: int| 0 <= j < i ==> #[trigger] is_match.ensures((&self@[j],), false),
            decreases self@.len() - i,
        {
            if is_match(&self.items[i]) {
                let ghost q = self@;
                let e = self.items.remove(i);
                assert forall|pred: spec_fn(E) -> bool| #[trigger]
                    decides(*is_match, pred) implies (Some(e), self@) == take_first(q, pred) by {
                    assert forall|j: int| 0 <= j < i implies !#[trigger] pred(q[j]) by {
                        assert(is_match.ensures((&q[j],), false));
                    }
                    lemma_first_match_unique(q, pred, i as int);
                }
                return Some(e);
            }
            i = i + 1;
        }
        assert forall|pred: spec_fn(E) -> bool| #[trigger]
            decides(*is_match, pred) implies (None::<E>, self@) == take_first(self@, pred) by {
            assert forall|j: int| 0 <= j < self@.len() implies !#[trigger] pred(self@[j]) by {
                assert(is_match.ensures((&self@[j],), false));
            }
            lemma_first_match(self@, pred);
        }
        None
    }

    /// Routes an envelope just pulled from the transport channel: returns it
    /// when `is_match` claims it, else appends it to the buffer for a later
    /// receive and returns `None`.
    pub fn on_arrival<F: Fn(&E) -> bool>(&mut self, e: E, is_match: &F) -> (r: Option<E>)
        requires
            accepts_all(*is_match),
        ensures
            forall|pred: spec_fn(E) -> bool| #[trigger]
                decides(*is_match, pred) ==> (r, final(self)@) == arrive(old(self)@, e, pred),
    {
        if is_match(&e) {
            Some(e)
        } else {
            self.items.push(e);
            None
        }
    }
}

} // verus!
