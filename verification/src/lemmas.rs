//! Lemmas on the single steps of the state machine: what each step keeps
//! and what it changes. The laws are proved from them.

use crate::model::{
    delivered_in_order, is_ack_of, plain_ack, ConnectionView, RecvSequenceSpace,
    SendSequenceSpace, State, Template, MAX_INBOUND_PAYLOAD, SENDQUEUE_SIZE,
};
use crate::sequence::{lemma_within_wrapping, ring_distance, spec_wrapping_lt};
use crate::wire::SegmentHeader;
use vstd::prelude::*;

verus! {

/// What the sending side needs for an emission to keep the numbers in
/// flight within the queued bytes and the control flags sent.
pub open spec fn ready_to_emit(s: ConnectionView) -> bool {
    &&& s.unacked.len() <= SENDQUEUE_SIZE
    &&& s.inflight() <= s.unacked.len() + s.control_inflight()
    &&& s.template.fin ==> s.closed_at is Some
    &&& !s.template.syn
}

/// An emission at `send.una`, or an empty one at `send.nxt`, moves
/// `send.nxt` only, records the window and clears the FIN flag.
pub(crate) proof fn lemma_after_emit(s: ConnectionView, seq: u32, limit: nat)
    requires
        ready_to_emit(s),
        seq == s.send.una || (seq == s.send.nxt && limit == 0),
    ensures
        ready_to_emit(s.after_emit(seq, limit)),
        !spec_wrapping_lt(s.after_emit(seq, limit).send.nxt, s.send.una),
        s.after_emit(seq, limit).send.una == s.send.una,
        s.after_emit(seq, limit).send.wnd == s.send.wnd,
        s.after_emit(seq, limit).unacked == s.unacked,
        s.after_emit(seq, limit).incoming == s.incoming,
        s.after_emit(seq, limit).state == s.state,
        s.after_emit(seq, limit).closed_at == s.closed_at,
        s.after_emit(seq, limit).recv.nxt == s.recv.nxt,
        s.after_emit(seq, limit).recv.wnd == s.advertised_window(),
        s.after_emit(seq, limit).template == (Template {
            syn: false,
            fin: false,
            ..s.template
        }),
{
    reveal(ConnectionView::after_emit);
    let n = s.payload_for(seq, limit).len();
    if seq == s.send.una {
        assert(n <= s.unacked.len());
    } else {
        assert(n == 0);
    }
}

/// An acknowledgment at `send.nxt` keeps the sending side well formed and
/// makes the receiving side well formed.
pub(crate) proof fn lemma_emit_ack(s: ConnectionView)
    requires
        s.wf_send(),
    ensures
        s.emit_ack().next.wf(),
        s.emit_ack().next.state == s.state,
        s.emit_ack().next.incoming == s.incoming,
        s.emit_ack().next.unacked == s.unacked,
        s.emit_ack().next.closed_at == s.closed_at,
        s.emit_ack().next.send.una == s.send.una,
        s.emit_ack().next.send.wnd == s.send.wnd,
        s.emit_ack().next.send.nxt == s.send.nxt.wrapping_add(
            if s.template.fin {
                1u32
            } else {
                0u32
            },
        ),
        s.emit_ack().next.recv.nxt == s.recv.nxt,
        s.emit_ack().next.template == (Template { fin: false, ..s.template }),
        s.emit_ack().emitted.len() == 1,
        is_ack_of(s.emit_ack().emitted[0], s.emit_ack().next),
        s.emit_ack().emitted[0].header.fin == s.template.fin,
        s.emit_ack().emitted[0].header.sequence_number == s.send.nxt,
{
    reveal(ConnectionView::after_emit);
    lemma_after_emit(s, s.send.nxt, 0);
    assert(s.payload_for(s.send.nxt, 0).len() == 0);
}

/// Taking an acknowledgment keeps a connection well formed.
pub(crate) proof fn lemma_after_ack(s: ConnectionView, seg: SegmentHeader)
    requires
        s.wf(),
    ensures
        s.after_ack(seg).wf(),
        s.after_ack(seg).state == s.state,
        s.after_ack(seg).incoming == s.incoming,
        s.after_ack(seg).closed_at == s.closed_at,
        s.after_ack(seg).recv == s.recv,
        s.after_ack(seg).template == s.template,
        s.after_ack(seg).send.nxt == s.send.nxt,
{
    reveal(ConnectionView::after_ack);
    lemma_within_wrapping(s.send.una, seg.acknowledgment_number, s.send.nxt);
    if s.state.takes_ack() && s.ack_in_flight(seg) {
        let t = s.after_ack(seg);
        let acked = ring_distance(s.send.una, seg.acknowledgment_number);
        assert(t.inflight() == s.inflight() - acked);
        assert(t.unacked.len() == if acked <= s.unacked.len() {
            s.unacked.len() - acked
        } else {
            s.unacked.len() as int
        });
    }
}

/// What taking an acknowledgment changes: where the number acknowledged
/// lies in flight, `send.una` moves up to it, the peer's window is
/// recorded, and the bytes acknowledged leave the send queue where it
/// holds that many.
pub(crate) proof fn lemma_after_ack_result(s: ConnectionView, seg: SegmentHeader)
    ensures
        !(s.state.takes_ack() && s.ack_in_flight(seg)) ==> s.after_ack(seg) == s,
        s.state.takes_ack() && s.ack_in_flight(seg) ==> {
            let acked = ring_distance(s.send.una, seg.acknowledgment_number);
            &&& s.after_ack(seg).send.una == seg.acknowledgment_number
            &&& s.after_ack(seg).send.wnd == seg.window_size
            &&& s.after_ack(seg).unacked == if acked <= s.unacked.len() {
                s.unacked.skip(acked)
            } else {
                s.unacked
            }
        },
{
    reveal(ConnectionView::after_ack);
}

/// An acknowledged FIN moves the state; nothing else changes.
pub(crate) proof fn lemma_after_fin_acked(s: ConnectionView)
    requires
        s.wf(),
    ensures
        s.after_fin_acked().wf(),
        s.after_fin_acked().incoming == s.incoming,
        s.after_fin_acked().recv == s.recv,
        s.after_fin_acked().send == s.send,
        s.after_fin_acked().unacked == s.unacked,
        s.after_fin_acked().template == s.template,
        s.after_fin_acked().closed_at == s.closed_at,
        !s.fin_acked() ==> s.after_fin_acked() == s,
        s.after_fin_acked().state == if s.fin_acked() && s.state == State::FinWait1 {
            State::FinWait2
        } else if s.fin_acked() && s.state == State::Closing {
            State::TimeWait
        } else if s.fin_acked() && s.state == State::LastAck {
            State::Closed
        } else {
            s.state
        },
        s.state.spec_is_rcv_closed() ==> s.after_fin_acked() == s,
{
    reveal(ConnectionView::after_fin_acked);
}

/// Delivering payload keeps a connection well formed, and delivers nothing
/// once the stream has ended for the reader.
pub(crate) proof fn lemma_after_payload(s: ConnectionView, seg: SegmentHeader, payload: Seq<u8>)
    requires
        s.wf(),
        payload.len() <= MAX_INBOUND_PAYLOAD,
    ensures
        s.after_payload(seg, payload).next.wf(),
        s.after_payload(seg, payload).next.state == s.state,
        s.after_payload(seg, payload).next.unacked == s.unacked,
        s.after_payload(seg, payload).next.closed_at == s.closed_at,
        s.after_payload(seg, payload).next.send.una == s.send.una,
        s.after_payload(seg, payload).next.send.wnd == s.send.wnd,
        !s.template.fin ==> s.after_payload(seg, payload).next.send.nxt == s.send.nxt,
        s.after_payload(seg, payload).next.template == s.template || s.after_payload(
            seg,
            payload,
        ).next.template == (Template { fin: false, ..s.template }),
        s.after_payload(seg, payload).emitted.len() <= 1,
        s.is_rcv_closed() ==> s.after_payload(seg, payload) == s.stay(),
{
    reveal(ConnectionView::after_payload);
    if payload.len() > 0 && s.state.takes_payload() && (seg.sequence_number == s.recv.nxt
        || spec_wrapping_lt(seg.sequence_number, s.recv.nxt)) {
        let fresh = s.fresh(seg, payload);
        let grown = ConnectionView {
            incoming: s.incoming + fresh,
            recv: RecvSequenceSpace {
                nxt: s.recv.nxt.wrapping_add(fresh.len() as u32),
                ..s.recv
            },
            ..s
        };
        assert(grown.wf_send());
        lemma_emit_ack(grown);
    }
}

/// Taking the peer's FIN keeps a connection well formed.
pub(crate) proof fn lemma_after_fin(s: ConnectionView, seg: SegmentHeader)
    requires
        s.wf(),
    ensures
        s.after_fin(seg).next.wf(),
        s.after_fin(seg).next.incoming == s.incoming,
        s.after_fin(seg).next.recv.nxt == s.recv.nxt || s.after_fin(seg).next.recv.nxt
            == s.recv.nxt.wrapping_add(1),
        s.after_fin(seg).next.unacked == s.unacked,
        s.after_fin(seg).next.closed_at == s.closed_at,
        s.after_fin(seg).next.send.una == s.send.una,
        s.after_fin(seg).next.send.wnd == s.send.wnd,
        !s.template.fin ==> s.after_fin(seg).next.send.nxt == s.send.nxt,
        s.after_fin(seg).next.template == s.template || s.after_fin(seg).next.template
            == (Template { fin: false, ..s.template }),
        !(seg.fin && s.state.takes_payload()) ==> s.after_fin(seg) == s.stay(),
        seg.fin && s.state.takes_payload() ==> {
            &&& s.after_fin(seg).emitted.len() == 1
            &&& is_ack_of(s.after_fin(seg).emitted[0], s.after_fin(seg).next)
            &&& s.after_fin(seg).emitted[0].header.fin == s.template.fin
            &&& s.after_fin(seg).next.state == s.state_after_fin()
        },
        s.is_rcv_closed() ==> s.after_fin(seg) == s.stay(),
{
    reveal(ConnectionView::after_fin);
    if seg.fin && s.state.takes_payload() {
        let moved = ConnectionView {
            recv: RecvSequenceSpace { nxt: s.recv.nxt.wrapping_add(1), ..s.recv },
            ..s
        };
        assert(moved.wf_send());
        lemma_emit_ack(moved);
    }
}

/// The acknowledgment that ends `SynRcv` keeps a connection well formed.
pub(crate) proof fn lemma_opened(s: ConnectionView, seg: SegmentHeader)
    requires
        s.wf(),
        s.state == State::SynRcv,
        s.ack_in_flight(seg),
    ensures
        (ConnectionView {
            state: State::Established,
            send: SendSequenceSpace { una: seg.acknowledgment_number, ..s.send },
            ..s
        }).wf(),
{
    lemma_within_wrapping(s.send.una, seg.acknowledgment_number, s.send.nxt);
}

/// An acceptable segment with ACK keeps a connection well formed.
pub(crate) proof fn lemma_after_acknowledged(s: ConnectionView, seg: SegmentHeader, payload: Seq<u8>)
    requires
        s.wf(),
        payload.len() <= MAX_INBOUND_PAYLOAD,
    ensures
        s.after_acknowledged(seg, payload).next.wf(),
{
    if s.state == State::SynRcv && !s.ack_in_flight(seg) {
    } else {
        let opened = if s.state == State::SynRcv {
            ConnectionView {
                state: State::Established,
                send: SendSequenceSpace { una: seg.acknowledgment_number, ..s.send },
                ..s
            }
        } else {
            s
        };
        if s.state == State::SynRcv {
            lemma_opened(s, seg);
        }
        lemma_after_ack(opened, seg);
        let acked = opened.after_ack(seg);
        lemma_after_fin_acked(acked);
        let moved = acked.after_fin_acked();
        lemma_after_payload(moved, seg, payload);
        let delivered = moved.after_payload(seg, payload);
        lemma_after_fin(delivered.next, seg);
    }
}

/// The first half of a tick keeps a connection well formed.
pub(crate) proof fn lemma_after_retransmit(s: ConnectionView)
    requires
        s.wf(),
    ensures
        s.after_retransmit().next.wf(),
        s.after_retransmit().next.incoming == s.incoming,
        s.after_retransmit().next.unacked == s.unacked,
        s.after_retransmit().next.state == s.state,
{
    if s.unacked.len() > 0 && s.sendable() > 0 {
        let pushed = ConnectionView {
            template: Template { psh: true, ..s.template },
            ..s
        };
        lemma_after_emit(pushed, s.send.una, s.sendable());
    }
}

/// The second half of a tick keeps a connection well formed.
pub(crate) proof fn lemma_after_close_wait(s: ConnectionView)
    requires
        s.wf(),
    ensures
        s.after_close_wait().next.wf(),
        s.after_close_wait().next.incoming == s.incoming,
        s.after_close_wait().next.unacked == s.unacked,
{
    if s.state == State::CloseWait {
        let closing = ConnectionView {
            template: Template { fin: true, ..s.template },
            closed_at: Some(s.send.una.wrapping_add(s.unacked.len() as u32)),
            ..s
        };
        lemma_after_emit(closing, s.send.una, 0);
    }
}

/// A tick keeps a connection well formed.
pub(crate) proof fn lemma_on_tick(s: ConnectionView)
    requires
        s.wf(),
    ensures
        s.on_tick().next.wf(),
        s.on_tick().next.incoming == s.incoming,
        s.on_tick().next.unacked == s.unacked,
{
    lemma_after_retransmit(s);
    lemma_after_close_wait(s.after_retransmit().next);
}

/// What a segment adds to `incoming` is the part of its payload from
/// `recv.nxt` on, whole or not at all.
pub(crate) proof fn lemma_delivery(s: ConnectionView, seg: SegmentHeader, payload: Seq<u8>)
    requires
        payload.len() <= MAX_INBOUND_PAYLOAD,
    ensures
        s.after_payload(seg, payload).next.incoming == s.incoming || (ring_distance(
            seg.sequence_number,
            s.recv.nxt,
        ) < payload.len() && s.state.takes_payload() && s.after_payload(seg, payload).next.incoming
            == s.incoming + payload.skip(ring_distance(seg.sequence_number, s.recv.nxt))
            && s.after_payload(seg, payload).next.recv.nxt == seg.sequence_number.wrapping_add(
            payload.len() as u32,
        )),
        s.after_payload(seg, payload).next.unacked == s.unacked,
        s.after_payload(seg, payload).next.state == s.state,
        s.after_payload(seg, payload).next.send.una == s.send.una,
        s.after_payload(seg, payload).next.closed_at == s.closed_at,
{
    reveal(ConnectionView::after_payload);
    reveal(ConnectionView::after_emit);
    if payload.len() > 0 && s.state.takes_payload() && (seg.sequence_number == s.recv.nxt
        || spec_wrapping_lt(seg.sequence_number, s.recv.nxt)) {
        let fresh = s.fresh(seg, payload);
        if seg.sequence_number == s.recv.nxt {
            assert(payload.skip(0) =~= payload);
        } else {
            let skip = ring_distance(seg.sequence_number, s.recv.nxt);
            if skip >= payload.len() {
                assert(s.incoming + fresh =~= s.incoming);
            }
        }
    }
}

/// The FIN that follows a delivery keeps the delivery in order.
pub(crate) proof fn lemma_delivery_then_fin(
    s: ConnectionView,
    seg: SegmentHeader,
    payload: Seq<u8>,
    d: ConnectionView,
    t: ConnectionView,
)
    requires
        payload.len() <= MAX_INBOUND_PAYLOAD,
        d.incoming == s.incoming || (ring_distance(seg.sequence_number, s.recv.nxt) < payload.len()
            && d.incoming == s.incoming + payload.skip(
            ring_distance(seg.sequence_number, s.recv.nxt),
        ) && d.recv.nxt == seg.sequence_number.wrapping_add(payload.len() as u32)),
        t.incoming == d.incoming,
        t.recv.nxt == d.recv.nxt || t.recv.nxt == d.recv.nxt.wrapping_add(1),
    ensures
        delivered_in_order(s, seg, payload, t),
{
}

/// What an acceptable segment with ACK adds to `incoming`.
pub(crate) proof fn lemma_acknowledged_delivery(s: ConnectionView, seg: SegmentHeader, payload: Seq<u8>)
    requires
        s.wf(),
        payload.len() <= MAX_INBOUND_PAYLOAD,
    ensures
        delivered_in_order(s, seg, payload, s.after_acknowledged(seg, payload).next),
{
    if s.state == State::SynRcv && !s.ack_in_flight(seg) {
    } else {
        let opened = if s.state == State::SynRcv {
            ConnectionView {
                state: State::Established,
                send: SendSequenceSpace { una: seg.acknowledgment_number, ..s.send },
                ..s
            }
        } else {
            s
        };
        if s.state == State::SynRcv {
            lemma_opened(s, seg);
        }
        lemma_after_ack(opened, seg);
        let acked = opened.after_ack(seg);
        lemma_after_fin_acked(acked);
        let moved = acked.after_fin_acked();
        assert(moved.incoming == s.incoming && moved.recv == s.recv);
        if moved.state != acked.state && moved.is_rcv_closed() {
        } else {
            lemma_delivery(moved, seg, payload);
            lemma_after_payload(moved, seg, payload);
            let delivered = moved.after_payload(seg, payload).next;
            lemma_after_fin(delivered, seg);
            let t = delivered.after_fin(seg).next;
            lemma_delivery_then_fin(s, seg, payload, delivered, t);
        }
    }
}

/// A tick sends all of a send queue that fits the peer's window, from a
/// connection with nothing in flight.
pub(crate) proof fn lemma_tick_sends_all(q: ConnectionView)
    requires
        q.wf(),
        q.state.takes_ack(),
        !q.fin_acked(),
        q.send.una == q.send.nxt,
        0 < q.unacked.len() <= q.send.wnd,
    ensures
        ({
            let sent = q.on_tick();
            &&& sent.next.wf()
            &&& sent.next.state.takes_ack()
            &&& sent.next.unacked == q.unacked
            &&& sent.next.send.una == q.send.una
            &&& sent.next.send.nxt == q.send.una.wrapping_add(
                q.unacked.len() as u32,
            ).wrapping_add(
                if q.template.fin {
                    1u32
                } else {
                    0u32
                },
            )
            &&& !sent.next.template.fin
            &&& sent.emitted.len() >= 1
            &&& sent.emitted[0].payload == q.unacked
            &&& sent.emitted[0].header.sequence_number == q.send.una
            &&& sent.emitted[0].header.psh
            &&& sent.emitted[0].header.fin == q.template.fin
        }),
{
    reveal(ConnectionView::after_emit);
    assert(q.sendable() == q.unacked.len());
    let pushed = ConnectionView { template: Template { psh: true, ..q.template }, ..q };
    assert(pushed.payload_for(q.send.una, q.unacked.len()) =~= q.unacked) by {
        assert(ring_distance(q.send.una, q.send.una) == 0);
        assert(q.unacked.subrange(0, q.unacked.len() as int) =~= q.unacked);
    }
    lemma_after_emit(pushed, q.send.una, q.unacked.len());
    lemma_after_retransmit(q);
    let first = q.after_retransmit();
    let e = first.next;
    assert(e.send.nxt == q.send.una.wrapping_add(q.unacked.len() as u32).wrapping_add(
        if q.template.fin {
            1u32
        } else {
            0u32
        },
    ));
    lemma_after_close_wait(e);
    if e.state == State::CloseWait {
        let closing = ConnectionView {
            template: Template { fin: true, ..e.template },
            closed_at: Some(e.send.una.wrapping_add(e.unacked.len() as u32)),
            ..e
        };
        lemma_after_emit(closing, e.send.una, 0);
        assert(closing.payload_for(e.send.una, 0).len() == 0);
    }
    let second = e.after_close_wait();
    assert((first.emitted + second.emitted)[0] == first.emitted[0]);
}

/// The peer's FIN in `Established` or `FinWait2`: it is acknowledged and
/// moves the state.
pub(crate) proof fn lemma_peer_fin(s: ConnectionView, f: SegmentHeader, payload: Seq<u8>)
    requires
        s.wf(),
        s.state == State::Established || s.state == State::FinWait2,
        plain_ack(f),
        f.fin,
        payload.len() <= MAX_INBOUND_PAYLOAD,
        s.accepts(f, payload),
    ensures
        ({
            let step = s.on_packet(f, payload);
            &&& step.next.state == if s.state == State::Established {
                State::CloseWait
            } else {
                State::TimeWait
            }
            &&& step.emitted.len() >= 1
            &&& is_ack_of(step.emitted.last(), step.next)
            &&& s.state == State::Established ==> !step.emitted.last().header.fin
        }),
{
    lemma_after_ack(s, f);
    let acked = s.after_ack(f);
    lemma_after_fin_acked(acked);
    let moved = acked.after_fin_acked();
    assert(moved.state == s.state && moved.template == s.template);
    lemma_after_payload(moved, f, payload);
    let delivered = moved.after_payload(f, payload);
    let d = delivered.next;
    lemma_after_fin(d, f);
    let finished = d.after_fin(f);
    assert((delivered.emitted + finished.emitted).last() == finished.emitted[0]);
}

} // verus!
