use std::collections::VecDeque;

use async_reply::pending::PendingBuffer;
use async_reply::{Error, CHANNEL_CAPACITY};

#[derive(Debug, Clone, Copy, PartialEq, Eq)]
enum Envelope {
    Inc(u32),
    Dec(u32),
}

fn is_inc(e: &Envelope) -> bool {
    matches!(e, Envelope::Inc(_))
}

fn is_dec(e: &Envelope) -> bool {
    matches!(e, Envelope::Dec(_))
}

/// One receive run to the end against a channel that already holds what was
/// sent: the buffer scan, then pulls until an envelope is claimed.
fn receive<F: Fn(&Envelope) -> bool>(
    buf: &mut PendingBuffer<Envelope>,
    chan: &mut VecDeque<Envelope>,
    is_match: &F,
) -> Option<Envelope> {
    if let Some(e) = buf.take_first_match(is_match) {
        return Some(e);
    }
    while let Some(e) = chan.pop_front() {
        if let Some(e) = buf.on_arrival(e, is_match) {
            return Some(e);
        }
    }
    None
}

#[test]
fn new_buffer_is_empty() {
    let buf: PendingBuffer<Envelope> = PendingBuffer::new();
    assert_eq!(buf.len(), 0);
}

#[test]
fn arrival_of_wanted_type_is_handed_out() {
    let mut buf = PendingBuffer::new();
    assert_eq!(buf.on_arrival(Envelope::Inc(1), &is_inc), Some(Envelope::Inc(1)));
    assert_eq!(buf.len(), 0);
}

#[test]
fn arrival_of_other_type_is_buffered() {
    let mut buf = PendingBuffer::new();
    assert_eq!(buf.on_arrival(Envelope::Dec(1), &is_inc), None);
    assert_eq!(buf.len(), 1);
    assert_eq!(buf.take_first_match(&is_dec), Some(Envelope::Dec(1)));
    assert_eq!(buf.len(), 0);
}

#[test]
fn scan_takes_oldest_match_and_keeps_the_rest() {
    let mut buf = PendingBuffer::new();
    assert_eq!(buf.on_arrival(Envelope::Dec(1), &is_inc), None);
    assert_eq!(buf.on_arrival(Envelope::Inc(2), &is_dec), None);
    assert_eq!(buf.on_arrival(Envelope::Dec(3), &is_inc), None);
    assert_eq!(buf.on_arrival(Envelope::Inc(4), &is_dec), None);
    assert_eq!(buf.take_first_match(&is_inc), Some(Envelope::Inc(2)));
    assert_eq!(buf.len(), 3);
    assert_eq!(buf.take_first_match(&is_dec), Some(Envelope::Dec(1)));
    assert_eq!(buf.take_first_match(&is_dec), Some(Envelope::Dec(3)));
    assert_eq!(buf.take_first_match(&is_inc), Some(Envelope::Inc(4)));
    assert_eq!(buf.len(), 0);
}

#[test]
fn scan_without_match_leaves_buffer() {
    let mut buf = PendingBuffer::new();
    assert_eq!(buf.take_first_match(&is_inc), None);
    assert_eq!(buf.on_arrival(Envelope::Dec(1), &is_inc), None);
    assert_eq!(buf.take_first_match(&is_inc), None);
    assert_eq!(buf.len(), 1);
    assert_eq!(buf.take_first_match(&is_dec), Some(Envelope::Dec(1)));
}

#[test]
fn one_type_comes_out_in_order_sent() {
    let mut buf = PendingBuffer::new();
    let mut chan: VecDeque<Envelope> =
        vec![Envelope::Inc(1), Envelope::Inc(2), Envelope::Inc(3)].into();
    assert_eq!(receive(&mut buf, &mut chan, &is_inc), Some(Envelope::Inc(1)));
    assert_eq!(receive(&mut buf, &mut chan, &is_inc), Some(Envelope::Inc(2)));
    assert_eq!(receive(&mut buf, &mut chan, &is_inc), Some(Envelope::Inc(3)));
    assert_eq!(receive(&mut buf, &mut chan, &is_inc), None);
}

#[test]
fn interleaved_types_are_routed_without_loss() {
    let mut buf = PendingBuffer::new();
    let mut chan: VecDeque<Envelope> = vec![
        Envelope::Inc(1),
        Envelope::Dec(1),
        Envelope::Inc(2),
        Envelope::Dec(2),
    ]
    .into();
    assert_eq!(receive(&mut buf, &mut chan, &is_inc), Some(Envelope::Inc(1)));
    assert_eq!(receive(&mut buf, &mut chan, &is_inc), Some(Envelope::Inc(2)));
    assert_eq!(buf.len(), 1);
    assert_eq!(chan.len(), 1);
    assert_eq!(receive(&mut buf, &mut chan, &is_dec), Some(Envelope::Dec(1)));
    assert_eq!(receive(&mut buf, &mut chan, &is_dec), Some(Envelope::Dec(2)));
    assert_eq!(buf.len(), 0);
    assert!(chan.is_empty());
}

#[test]
fn buffered_envelope_is_found_without_new_send() {
    let mut buf = PendingBuffer::new();
    let mut chan: VecDeque<Envelope> = vec![Envelope::Dec(7), Envelope::Inc(8)].into();
    assert_eq!(receive(&mut buf, &mut chan, &is_inc), Some(Envelope::Inc(8)));
    assert!(chan.is_empty());
    assert_eq!(buf.len(), 1);
    assert_eq!(receive(&mut buf, &mut chan, &is_dec), Some(Envelope::Dec(7)));
    assert_eq!(buf.len(), 0);
}

#[test]
fn inc_dec_inc_each_receive_gets_its_type() {
    let mut buf = PendingBuffer::new();
    let mut chan: VecDeque<Envelope> =
        vec![Envelope::Inc(1), Envelope::Dec(2), Envelope::Inc(3)].into();
    assert_eq!(receive(&mut buf, &mut chan, &is_inc), Some(Envelope::Inc(1)));
    assert_eq!(receive(&mut buf, &mut chan, &is_dec), Some(Envelope::Dec(2)));
    assert_eq!(receive(&mut buf, &mut chan, &is_inc), Some(Envelope::Inc(3)));
    assert_eq!(receive(&mut buf, &mut chan, &is_inc), None);
    assert_eq!(buf.len(), 0);
    assert!(chan.is_empty());
}

#[test]
fn nothing_pending_of_asked_type_buffers_everything() {
    let mut buf = PendingBuffer::new();
    let mut chan: VecDeque<Envelope> = vec![Envelope::Dec(1), Envelope::Dec(2)].into();
    assert_eq!(receive(&mut buf, &mut chan, &is_inc), None);
    assert_eq!(buf.len(), 2);
    assert_eq!(receive(&mut buf, &mut chan, &is_dec), Some(Envelope::Dec(1)));
    assert_eq!(receive(&mut buf, &mut chan, &is_dec), Some(Envelope::Dec(2)));
}

#[test]
fn transport_channel_capacity() {
    assert_eq!(CHANNEL_CAPACITY, 10);
}

#[test]
fn failed_push_becomes_send_error() {
    let (sndr, recv) = async_std::channel::bounded::<u8>(1);
    drop(recv);
    let err = async_std::task::block_on(sndr.send(3)).unwrap_err();
    assert_eq!(Error::from(err), Error::SendError);
}

#[test]
fn closed_reply_channel_becomes_reply_error() {
    let (sndr, recv) = async_std::channel::bounded::<u8>(1);
    drop(sndr);
    let err = async_std::task::block_on(recv.recv()).map_err(Error::ReplayError);
    assert!(matches!(err, Err(Error::ReplayError(_))));
}
