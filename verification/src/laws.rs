//! What holds of every connection, proved of the state machine in `model`.

use crate::lemmas::{
    lemma_acknowledged_delivery, lemma_after_ack, lemma_after_ack_result,
    lemma_after_emit, lemma_after_fin, lemma_after_fin_acked, lemma_after_payload,
    lemma_after_retransmit, lemma_emit_ack, lemma_on_tick, lemma_opened, lemma_peer_fin,
    lemma_after_acknowledged, lemma_tick_sends_all,
};
use crate::model::{
    acceptable, delivered_in_order, in_window, is_ack_of, plain_ack, ConnectionView, Event,
    SendSequenceSpace, State, Template, MAX_INBOUND_PAYLOAD, SENDQUEUE_SIZE,
};
use crate::sequence::{lemma_window, ring_distance, spec_wrapping_lt};
use crate::wire::SegmentHeader;
use vstd::prelude::*;

verus! {

/// Well-formedness is an invariant: the SYN|ACK of a passive open leaves a
/// well-formed connection in `SynRcv`.
pub proof fn law_accept_well_formed(seg: SegmentHeader, iss: u32)
    requires
        seg.syn,
    ensures
        ConnectionView::accept(seg, iss) matches Some(step) && step.next.wf() && step.next.state
            == State::SynRcv,
{
    reveal(ConnectionView::after_emit);
    let s = ConnectionView::listen(seg, iss);
    assert(s.payload_for(iss, 0).len() == 0);
}

/// Well-formedness is an invariant: every event leaves a well-formed
/// connection well formed.
pub proof fn law_well_formed_kept(s: ConnectionView, event: Event)
    requires
        s.wf(),
        event matches Event::Packet { payload, .. } ==> payload.len() <= MAX_INBOUND_PAYLOAD,
    ensures
        s.apply(event).next.wf(),
{
    match event {
        Event::Packet { seg, payload } => {
            if !s.accepts(seg, payload) {
                if seg.ack {
                    lemma_emit_ack(s);
                }
            } else if seg.rst && s.state.reset_closes() {
            } else if seg.syn && s.state.spec_is_synchronized() {
            } else if !seg.ack {
            } else {
                lemma_after_acknowledged(s, seg, payload);
            }
        },
        Event::Tick => {
            lemma_on_tick(s);
        },
        Event::Close => {},
        Event::Write { buf } => {},
        Event::Read { room } => {},
    }
}

/// The send sequence space of a well-formed connection: `send.una` is at
/// or before `send.nxt` on the ring, and the numbers between them are no
/// more than the bytes of the send queue and the control flags sent.
pub proof fn law_send_space(s: ConnectionView)
    requires
        s.wf(),
    ensures
        s.send.una == s.send.nxt || spec_wrapping_lt(s.send.una, s.send.nxt),
        !spec_wrapping_lt(s.send.nxt, s.send.una),
        s.inflight() <= s.unacked.len() + s.control_inflight(),
        s.inflight() <= SENDQUEUE_SIZE + 2,
{
}

/// The send queue of a well-formed connection holds at most
/// `SENDQUEUE_SIZE` bytes.
pub proof fn law_send_queue_bounded(s: ConnectionView)
    requires
        s.wf(),
    ensures
        s.unacked.len() <= SENDQUEUE_SIZE,
{
}

/// Every segment advertises what `incoming` leaves of 65535 bytes, and
/// nothing where `incoming` holds more; that window is recorded in
/// `recv.wnd`.
pub proof fn law_window_at_emission(s: ConnectionView, seq: u32, limit: nat)
    ensures
        s.emit(seq, limit).emitted.len() == 1,
        s.emit(seq, limit).emitted[0].header.window_size == s.emit(seq, limit).next.recv.wnd,
        s.incoming.len() <= u16::MAX ==> s.emit(seq, limit).next.recv.wnd == u16::MAX
            - s.incoming.len(),
        s.incoming.len() > u16::MAX ==> s.emit(seq, limit).next.recv.wnd == 0,
{
    reveal(ConnectionView::after_emit);
}

/// Between two events the window advertised last is no more than what
/// `incoming` leaves of 65535 bytes.
pub proof fn law_window_bounded(s: ConnectionView)
    requires
        s.wf(),
    ensures
        s.recv.wnd == 0 || s.recv.wnd + s.incoming.len() <= u16::MAX,
{
}

/// With a receive window of zero, only an empty segment at `recv.nxt` is
/// acceptable.
pub proof fn law_zero_window(nxt: u32, seq: u32, len: int)
    requires
        0 <= len,
    ensures
        acceptable(nxt, 0, seq, len) <==> len == 0 && seq == nxt,
{
}

/// A number is in the receive window where it lies fewer than `wnd` steps
/// ahead of `recv.nxt`.
pub proof fn law_in_window(nxt: u32, wnd: u16, x: u32)
    requires
        wnd > 0,
    ensures
        in_window(nxt, wnd, x) <==> ring_distance(nxt, x) < wnd,
{
    lemma_window(nxt, x, wnd as u32);
}

/// With an open window, a segment that takes sequence numbers is
/// acceptable where its first or its last number lies in the window, and
/// only there; an empty one where its number lies in the window.
pub proof fn law_window_edges(nxt: u32, wnd: u16, seq: u32, len: int)
    requires
        wnd > 0,
        0 <= len <= u32::MAX,
    ensures
        len > 0 ==> (acceptable(nxt, wnd, seq, len) <==> ring_distance(nxt, seq) < wnd
            || ring_distance(nxt, seq.wrapping_add((len - 1) as u32)) < wnd),
        len == 0 ==> (acceptable(nxt, wnd, seq, len) <==> ring_distance(nxt, seq) < wnd),
{
    law_in_window(nxt, wnd, seq);
    if len > 0 {
        law_in_window(nxt, wnd, seq.wrapping_add((len - 1) as u32));
    }
}

/// `incoming` grows only at `recv.nxt`: what an inbound segment adds to it
/// is the part of the payload whose first byte has the sequence number
/// `recv.nxt`, and `recv.nxt` then stands behind the payload.
pub proof fn law_delivery_in_order(s: ConnectionView, seg: SegmentHeader, payload: Seq<u8>)
    requires
        s.wf(),
        payload.len() <= MAX_INBOUND_PAYLOAD,
    ensures
        delivered_in_order(s, seg, payload, s.on_packet(seg, payload).next),
{
    if !s.accepts(seg, payload) {
        if seg.ack {
            lemma_emit_ack(s);
        }
    } else if seg.rst && s.state.reset_closes() {
    } else if seg.syn && s.state.spec_is_synchronized() {
    } else if !seg.ack {
    } else {
        lemma_acknowledged_delivery(s, seg, payload);
    }
}

/// Bytes are delivered once: a segment that added to `incoming` adds
/// nothing when it arrives again.
pub proof fn law_no_redelivery(s: ConnectionView, seg: SegmentHeader, payload: Seq<u8>)
    requires
        s.wf(),
        payload.len() <= MAX_INBOUND_PAYLOAD,
        s.on_packet(seg, payload).next.incoming != s.incoming,
    ensures
        s.on_packet(seg, payload).next.on_packet(seg, payload).next.incoming == s.on_packet(
            seg,
            payload,
        ).next.incoming,
{
    let t = s.on_packet(seg, payload).next;
    law_delivery_in_order(s, seg, payload);
    law_well_formed_kept(s, Event::Packet { seg, payload });
    law_delivery_in_order(t, seg, payload);
    assert(ring_distance(seg.sequence_number, t.recv.nxt) >= payload.len());
}

/// Once the stream has ended for the reader it stays ended, and no event
/// adds to `incoming`: a read takes from it, every other event leaves it.
pub proof fn law_closed_reader_gets_nothing(s: ConnectionView, event: Event)
    requires
        s.wf(),
        s.is_rcv_closed(),
        event matches Event::Packet { payload, .. } ==> payload.len() <= MAX_INBOUND_PAYLOAD,
    ensures
        s.apply(event).next.is_rcv_closed(),
        event matches Event::Read { room } ==> s.apply(event).next.incoming == s.incoming.skip(
            s.gives(room) as int,
        ),
        !(event is Read) ==> s.apply(event).next.incoming == s.incoming,
{
    match event {
        Event::Packet { seg, payload } => {
            if !s.accepts(seg, payload) {
                if seg.ack {
                    lemma_emit_ack(s);
                }
            } else if seg.rst && s.state.reset_closes() {
            } else if seg.syn && s.state.spec_is_synchronized() {
            } else if !seg.ack {
            } else {
                lemma_after_ack(s, seg);
                let acked = s.after_ack(seg);
                lemma_after_fin_acked(acked);
                lemma_after_payload(acked, seg, payload);
                lemma_after_fin(acked, seg);
            }
        },
        Event::Tick => {
            lemma_on_tick(s);
            lemma_after_retransmit(s);
        },
        Event::Close => {},
        Event::Write { buf } => {},
        Event::Read { room } => {},
    }
}

/// The handshake of a passive open: a SYN is answered with SYN|ACK at the
/// initial sequence number, and the acknowledgment of that number opens
/// the connection.
pub proof fn law_handshake(seg: SegmentHeader, iss: u32, a: SegmentHeader, payload: Seq<u8>)
    requires
        seg.syn,
        plain_ack(a),
        !a.fin,
        a.acknowledgment_number == iss.wrapping_add(1),
        payload.len() <= MAX_INBOUND_PAYLOAD,
        ConnectionView::accept(seg, iss).unwrap().next.accepts(a, payload),
    ensures
        ({
            let opened = ConnectionView::accept(seg, iss).unwrap();
            let answer = opened.emitted[0];
            let t = opened.next.on_packet(a, payload).next;
            &&& opened.emitted.len() == 1
            &&& answer.header.syn && answer.header.ack && !answer.header.fin && !answer.header.rst
            &&& answer.header.sequence_number == iss
            &&& answer.header.acknowledgment_number == seg.sequence_number.wrapping_add(1)
            &&& answer.header.window_size == u16::MAX
            &&& answer.header.source == seg.destination
            &&& answer.header.source_port == seg.destination_port
            &&& answer.header.destination == seg.source
            &&& answer.header.destination_port == seg.source_port
            &&& answer.payload.len() == 0
            &&& opened.next.state == State::SynRcv
            &&& t.state == State::Established
            &&& t.send.una == iss.wrapping_add(1)
            &&& t.send.nxt == iss.wrapping_add(1)
        }),
{
    reveal(ConnectionView::after_emit);
    law_accept_well_formed(seg, iss);
    let listen = ConnectionView::listen(seg, iss);
    assert(listen.payload_for(iss, 0).len() == 0);
    let s = ConnectionView::accept(seg, iss).unwrap().next;
    assert(s.send.una == iss && s.send.nxt == iss.wrapping_add(1));
    assert(s.ack_in_flight(a));
    lemma_opened(s, a);
    let opened = ConnectionView {
        state: State::Established,
        send: SendSequenceSpace { una: a.acknowledgment_number, ..s.send },
        ..s
    };
    lemma_after_ack(opened, a);
    lemma_after_ack_result(opened, a);
    let acked = opened.after_ack(a);
    lemma_after_fin_acked(acked);
    let moved = acked.after_fin_acked();
    lemma_after_payload(moved, a, payload);
    let delivered = moved.after_payload(a, payload).next;
    lemma_after_fin(delivered, a);
}

/// Written bytes that the peer acknowledges leave the send queue. From a
/// connection with nothing queued and nothing in flight, whose FIN has not
/// been acknowledged: the application
/// writes up to `SENDQUEUE_SIZE` bytes that fit the peer's window, a tick
/// sends them, and the acknowledgment of their last byte empties the queue
/// and moves `send.una` up to `send.nxt`, or to one before it where the
/// FIN went out with the bytes.
pub proof fn law_write_then_ack(s: ConnectionView, buf: Seq<u8>, a: SegmentHeader)
    requires
        s.wf(),
        s.state.takes_ack(),
        !s.fin_acked(),
        s.unacked.len() == 0,
        s.send.una == s.send.nxt,
        0 < buf.len() <= SENDQUEUE_SIZE,
        buf.len() <= s.send.wnd,
        plain_ack(a),
        a.acknowledgment_number == s.send.una.wrapping_add(buf.len() as u32),
        s.queue(buf).on_tick().next.accepts(a, Seq::empty()),
    ensures
        ({
            let sent = s.queue(buf).on_tick();
            let t = sent.next.on_packet(a, Seq::empty()).next;
            &&& s.queue(buf).unacked == buf
            &&& sent.emitted.len() >= 1
            &&& sent.emitted[0].payload == buf
            &&& sent.emitted[0].header.sequence_number == s.send.una
            &&& sent.emitted[0].header.psh
            &&& sent.emitted[0].header.fin == s.template.fin
            &&& t.unacked.len() == 0
            &&& t.send.una == a.acknowledgment_number
            &&& t.send.nxt == t.send.una.wrapping_add(
                if s.template.fin {
                    1u32
                } else {
                    0u32
                },
            )
        }),
{
    let q = s.queue(buf);
    assert(buf.take(buf.len() as int) =~= buf);
    assert(q.unacked =~= buf);
    assert(q.wf());
    lemma_tick_sends_all(q);
    let r = q.on_tick().next;
    assert(r.ack_in_flight(a));
    lemma_after_ack(r, a);
    lemma_after_ack_result(r, a);
    let acked = r.after_ack(a);
    assert(acked.unacked =~= Seq::<u8>::empty());
    lemma_after_fin_acked(acked);
    let moved = acked.after_fin_acked();
    lemma_after_payload(moved, a, Seq::empty());
    let delivered = moved.after_payload(a, Seq::empty()).next;
    lemma_after_fin(delivered, a);
}

/// Passive close, first step: the peer's FIN in `Established` is
/// acknowledged and leads to `CloseWait`.
pub proof fn law_peer_fin_in_established(s: ConnectionView, f: SegmentHeader, payload: Seq<u8>)
    requires
        s.wf(),
        s.state == State::Established,
        plain_ack(f),
        f.fin,
        payload.len() <= MAX_INBOUND_PAYLOAD,
        s.accepts(f, payload),
    ensures
        ({
            let step = s.on_packet(f, payload);
            &&& step.next.state == State::CloseWait
            &&& step.emitted.len() >= 1
            &&& is_ack_of(step.emitted.last(), step.next)
            &&& !step.emitted.last().header.fin
        }),
{
    lemma_peer_fin(s, f, payload);
}

/// Passive close, second step: in `CloseWait` a request to close sets the
/// FIN for the next segment and leads to `LastAck`; so does a tick, which
/// sends the FIN at once.
pub proof fn law_close_in_close_wait(s: ConnectionView)
    requires
        s.wf(),
        s.state == State::CloseWait,
    ensures
        s.can_close(),
        s.close().state == State::LastAck,
        s.close().template.fin,
        s.close().closed_at == Some(s.send.una.wrapping_add(s.unacked.len() as u32)),
        s.on_tick().next.state == State::LastAck,
        s.on_tick().next.closed_at == s.close().closed_at,
        s.on_tick().emitted.len() >= 1,
        s.on_tick().emitted.last().header.fin,
        s.on_tick().emitted.last().header.ack,
        s.on_tick().emitted.last().header.sequence_number == s.send.una,
        s.on_tick().emitted.last().payload.len() == 0,
{
    reveal(ConnectionView::after_emit);
    lemma_after_retransmit(s);
    let first = s.after_retransmit();
    let t = first.next;
    assert(t.send.una == s.send.una) by {
        if s.unacked.len() > 0 && s.sendable() > 0 {
            let pushed = ConnectionView {
                template: Template { psh: true, ..s.template },
                ..s
            };
            lemma_after_emit(pushed, s.send.una, s.sendable());
        }
    }
    let closing = ConnectionView {
        template: Template { fin: true, ..t.template },
        closed_at: Some(t.send.una.wrapping_add(t.unacked.len() as u32)),
        ..t
    };
    assert(closing.payload_for(t.send.una, 0).len() == 0);
    let second = t.after_close_wait();
    assert(second.emitted.len() == 1);
    assert((first.emitted + second.emitted).last() == second.emitted[0]);
}

/// The acknowledgment of the local FIN ends `FinWait1` in `FinWait2` and
/// `LastAck` in `Closed`.
pub proof fn law_fin_acknowledged(s: ConnectionView, a: SegmentHeader, payload: Seq<u8>)
    requires
        s.wf(),
        s.state == State::FinWait1 || s.state == State::LastAck,
        s.closed_at matches Some(c) && a.acknowledgment_number == c.wrapping_add(1),
        s.ack_in_flight(a),
        plain_ack(a),
        !a.fin,
        payload.len() <= MAX_INBOUND_PAYLOAD,
        s.accepts(a, payload),
    ensures
        s.on_packet(a, payload).next.state == if s.state == State::FinWait1 {
            State::FinWait2
        } else {
            State::Closed
        },
{
    lemma_after_ack(s, a);
    lemma_after_ack_result(s, a);
    let acked = s.after_ack(a);
    assert(acked.fin_acked());
    lemma_after_fin_acked(acked);
    let moved = acked.after_fin_acked();
    lemma_after_payload(moved, a, payload);
    lemma_after_fin(moved.after_payload(a, payload).next, a);
}

/// Active close, first step: a request to close in `Established` sets the
/// FIN for the next segment, records its place behind the queued bytes and
/// leads to `FinWait1`.
pub proof fn law_close_in_established(s: ConnectionView)
    requires
        s.wf(),
        s.state == State::Established,
    ensures
        s.can_close(),
        s.close().wf(),
        s.close().state == State::FinWait1,
        s.close().template.fin,
        s.close().closed_at == Some(s.send.una.wrapping_add(s.unacked.len() as u32)),
        s.close().emit_ack().emitted[0].header.fin,
{
}

/// Active close, last step: the peer's FIN in `FinWait2` is acknowledged
/// and leads to `TimeWait`.
pub proof fn law_peer_fin_in_fin_wait2(s: ConnectionView, f: SegmentHeader, payload: Seq<u8>)
    requires
        s.wf(),
        s.state == State::FinWait2,
        plain_ack(f),
        f.fin,
        payload.len() <= MAX_INBOUND_PAYLOAD,
        s.accepts(f, payload),
    ensures
        ({
            let step = s.on_packet(f, payload);
            &&& step.next.state == State::TimeWait
            &&& step.emitted.len() >= 1
            &&& is_ack_of(step.emitted.last(), step.next)
        }),
{
    lemma_peer_fin(s, f, payload);
}

} // verus!
