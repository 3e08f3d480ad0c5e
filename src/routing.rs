//! What one receive does to the replyer's pending state, and the ordering
//! laws that follow.
//!
//! When receives run one at a time, a receive first scans the pending buffer
//! (`PendingBuffer::take_first_match`) and, finding nothing, routes envelopes
//! pulled from the transport channel one by one (`PendingBuffer::on_arrival`)
//! until one is handed out. The pending envelopes are then the buffer followed
//! by the channel's contents, in order of arrival.
//!
//! When receives run concurrently, the replyer's state changes by three
//! atomic steps only: a buffer scan under the buffer's lock, a pull from the
//! channel, and the routing of a pulled envelope under the lock. Each of them
//! keeps every envelope in exactly one place, whatever the interleaving.

use vstd::multiset::Multiset;
use vstd::prelude::*;
use crate::pending::{arrive, first_match, has_match, is_first_match, lemma_first_match,
    lemma_first_match_unique, take_first};

verus! {

/// Routes the envelopes at the front of the channel `chan` until one is
/// handed out; those passed over join the buffer `buf`. Gives what is handed
/// out, then the buffer and the channel after. When nothing in `chan` is
/// selected the receive is left waiting on an empty channel.
pub open spec fn pull<E>(buf: Seq<E>, chan: Seq<E>, pred: spec_fn(E) -> bool) -> (
    Option<E>,
    Seq<E>,
    Seq<E>,
)
    decreases chan.len(),
{
    if chan.len() == 0 {
        (None, buf, chan)
    } else {
        let step = arrive(buf, chan[0], pred);
        match step.0 {
            Some(e) => (Some(e), step.1, chan.drop_first()),
            None => pull(step.1, chan.drop_first(), pred),
        }
    }
}

/// One receive for the envelopes that `pred` selects, with `buf` in the
/// pending buffer and `chan` waiting in the transport channel: the buffer
/// scan first, then pulls from the channel.
pub open spec fn receive<E>(buf: Seq<E>, chan: Seq<E>, pred: spec_fn(E) -> bool) -> (
    Option<E>,
    Seq<E>,
    Seq<E>,
) {
    let scan = take_first(buf, pred);
    match scan.0 {
        Some(e) => (Some(e), scan.1, chan),
        None => pull(buf, chan, pred),
    }
}

proof fn lemma_pull<E>(buf: Seq<E>, chan: Seq<E>, pred: spec_fn(E) -> bool)
    requires
        !has_match(buf, pred),
    ensures
        ({
            let q = buf + chan;
            let out = pull(buf, chan, pred);
            match first_match(q, pred) {
                Some(i) => out.0 == Some(q[i]) && out.1 + out.2 == q.remove(i),
                None => out.0 is None && out.1 + out.2 == q && out.2.len() == 0,
            }
        }),
    decreases chan.len(),
{
    let q = buf + chan;
    lemma_first_match(q, pred);
    if chan.len() == 0 {
        assert(q =~= buf);
    } else if pred(chan[0]) {
        assert(q[buf.len() as int] == chan[0]);
        assert forall|j: int| 0 <= j < buf.len() implies !#[trigger] pred(q[j]) by {
            assert(q[j] == buf[j]);
        }
        lemma_first_match_unique(q, pred, buf.len() as int);
        assert(buf + chan.drop_first() =~= q.remove(buf.len() as int));
    } else {
        let b2 = buf.push(chan[0]);
        let c2 = chan.drop_first();
        assert forall|j: int| 0 <= j < b2.len() implies !#[trigger] pred(b2[j]) by {
            if j < buf.len() {
                assert(b2[j] == buf[j]);
            }
        }
        assert(b2 + c2 =~= q);
        lemma_pull(b2, c2, pred);
    }
}

/// A receive hands out the oldest pending envelope that it asks for, and
/// leaves every other pending envelope pending, once each and in the same
/// order; when none is pending it hands out nothing and loses nothing.
pub proof fn lemma_receive_takes_oldest<E>(buf: Seq<E>, chan: Seq<E>, pred: spec_fn(E) -> bool)
    ensures
        ({
            let q = buf + chan;
            let out = receive(buf, chan, pred);
            match first_match(q, pred) {
                Some(i) => out.0 == Some(q[i]) && pred(q[i]) && out.1 + out.2 == q.remove(i),
                None => out.0 is None && out.1 + out.2 == q,
            }
        }),
{
    let q = buf + chan;
    lemma_first_match(buf, pred);
    lemma_first_match(q, pred);
    match first_match(buf, pred) {
        Some(i) => {
            assert forall|j: int| 0 <= j < i implies !#[trigger] pred(q[j]) by {
                assert(q[j] == buf[j]);
            }
            assert(q[i] == buf[i]);
            lemma_first_match_unique(q, pred, i);
            assert(buf.remove(i) + chan =~= q.remove(i));
        },
        None => {
            lemma_pull(buf, chan, pred);
        },
    }
}

/// An envelope already in the pending buffer is found by a receive for its
/// type without anything new being sent: the receive hands out a selected
/// envelope and leaves the transport channel untouched.
pub proof fn lemma_buffered_visible<E>(buf: Seq<E>, chan: Seq<E>, pred: spec_fn(E) -> bool)
    requires
        has_match(buf, pred),
    ensures
        receive(buf, chan, pred).0 is Some,
        pred(receive(buf, chan, pred).0->0),
        receive(buf, chan, pred).2 == chan,
{
    lemma_first_match(buf, pred);
}

/// Two receives in a row for one type hand out that type's envelopes in the
/// order they arrived: the first gets the oldest selected envelope, the
/// second the next one after it.
pub proof fn lemma_fifo_within_type<E>(buf: Seq<E>, chan: Seq<E>, pred: spec_fn(E) -> bool)
    ensures
        ({
            let q = buf + chan;
            let one = receive(buf, chan, pred);
            let two = receive(one.1, one.2, pred);
            two.0 is Some ==> exists|i: int, j: int|
                #![trigger q[i], q[j]]
                {
                    &&& is_first_match(q, pred, i)
                    &&& i < j < q.len()
                    &&& pred(q[j])
                    &&& forall|k: int| i < k < j ==> !#[trigger] pred(q[k])
                    &&& one.0 == Some(q[i])
                    &&& two.0 == Some(q[j])
                }
        }),
{
    let q = buf + chan;
    let one = receive(buf, chan, pred);
    let two = receive(one.1, one.2, pred);
    lemma_receive_takes_oldest(buf, chan, pred);
    lemma_first_match(q, pred);
    match first_match(q, pred) {
        Some(i) => {
            let r = q.remove(i);
            assert(one.1 + one.2 == r);
            lemma_receive_takes_oldest(one.1, one.2, pred);
            lemma_first_match(r, pred);
            match first_match(r, pred) {
                Some(k) => {
                    if k < i {
                        assert(r[k] == q[k]);
                    }
                    let j = k + 1;
                    assert(r[k] == q[j]);
                    assert forall|m: int| i < m < j implies !#[trigger] pred(q[m]) by {
                        assert(q[m] == r[m - 1]);
                    }
                    assert(is_first_match(q, pred, i) && i < j < q.len() && pred(q[j]));
                },
                None => {},
            }
        },
        None => {
            assert(one.1 + one.2 == q);
            lemma_receive_takes_oldest(one.1, one.2, pred);
        },
    }
}

/// Every envelope on the replyer's side, wherever it is: in the pending
/// buffer `buf`, in the transport channel `chan`, pulled by a receive and not
/// yet routed (`flight`), or handed out (`out`).
pub open spec fn held<E>(buf: Seq<E>, chan: Seq<E>, flight: Multiset<E>, out: Multiset<E>) -> Multiset<E> {
    buf.to_multiset().add(chan.to_multiset()).add(flight).add(out)
}

/// A buffer scan hands out only an envelope of the type asked for, moves it
/// from the buffer to what was handed out, and loses or copies nothing.
pub proof fn lemma_scan_conserves<E>(
    buf: Seq<E>,
    chan: Seq<E>,
    flight: Multiset<E>,
    out: Multiset<E>,
    pred: spec_fn(E) -> bool,
)
    ensures
        ({
            let s = take_first(buf, pred);
            match s.0 {
                Some(x) => pred(x) && held(s.1, chan, flight, out.insert(x)) == held(
                    buf,
                    chan,
                    flight,
                    out,
                ),
                None => s.1 == buf,
            }
        }),
{
    broadcast use vstd::seq_lib::group_to_multiset_ensures;

    lemma_first_match(buf, pred);
    match first_match(buf, pred) {
        Some(i) => {
            assert(buf.remove(i).to_multiset() == buf.to_multiset().remove(buf[i]));
            assert(held(buf.remove(i), chan, flight, out.insert(buf[i])) =~= held(
                buf,
                chan,
                flight,
                out,
            ));
        },
        None => {},
    }
}

/// A pull moves the envelope at the front of the channel to the pulled ones
/// and loses or copies nothing.
pub proof fn lemma_pull_conserves<E>(
    buf: Seq<E>,
    chan: Seq<E>,
    flight: Multiset<E>,
    out: Multiset<E>,
)
    requires
        chan.len() > 0,
    ensures
        held(buf, chan.drop_first(), flight.insert(chan[0]), out) == held(buf, chan, flight, out),
{
    broadcast use vstd::seq_lib::group_to_multiset_ensures;

    assert(chan.drop_first() =~= chan.remove(0));
    assert(chan.remove(0).to_multiset() == chan.to_multiset().remove(chan[0]));
    assert(held(buf, chan.drop_first(), flight.insert(chan[0]), out) =~= held(
        buf,
        chan,
        flight,
        out,
    ));
}

/// Routing a pulled envelope either hands it out, when it is of the type
/// asked for, or moves it to the buffer; it loses or copies nothing.
pub proof fn lemma_route_conserves<E>(
    buf: Seq<E>,
    chan: Seq<E>,
    flight: Multiset<E>,
    out: Multiset<E>,
    e: E,
    pred: spec_fn(E) -> bool,
)
    requires
        flight.count(e) > 0,
    ensures
        ({
            let s = arrive(buf, e, pred);
            match s.0 {
                Some(x) => x == e && pred(e) && held(s.1, chan, flight.remove(e), out.insert(e))
                    == held(buf, chan, flight, out),
                None => !pred(e) && held(s.1, chan, flight.remove(e), out) == held(
                    buf,
                    chan,
                    flight,
                    out,
                ),
            }
        }),
{
    broadcast use vstd::seq_lib::group_to_multiset_ensures;

    if pred(e) {
        assert(held(buf, chan, flight.remove(e), out.insert(e)) =~= held(buf, chan, flight, out));
    } else {
        assert(buf.push(e).to_multiset() == buf.to_multiset().insert(e));
        assert(held(buf.push(e), chan, flight.remove(e), out) =~= held(buf, chan, flight, out));
    }
}

} // verus!
