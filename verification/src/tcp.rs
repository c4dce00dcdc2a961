//! The connection: the state machine of `model` run on real queues, with
//! every outbound segment serialised into a datagram.

use crate::available::Available;
use crate::error::NetError;
use crate::model::{
    ConnectionView, Event, Outgoing, RecvSequenceSpace, SendSequenceSpace, State, Template,
    MAX_INBOUND_PAYLOAD, SENDQUEUE_SIZE,
};
use crate::sequence::{between_wrapping, wrapping_lt};
use crate::wire::{encode_segment, segment_wire, SegmentHeader, MAX_SEGMENT_PAYLOAD};
use std::collections::VecDeque;
use vstd::prelude::*;

verus! {

/// The datagrams that wait in an outbox, oldest first.
pub open spec fn datagrams(out: Vec<Vec<u8>>) -> Seq<Seq<u8>> {
    out@.map_values(|d: Vec<u8>| d@)
}

/// The datagrams that a sequence of segments is serialised into.
pub open spec fn wire_of(emitted: Seq<Outgoing>) -> Seq<Seq<u8>> {
    emitted.map_values(|o: Outgoing| segment_wire(o.header, o.payload))
}

/// Serialising goes segment by segment.
pub(crate) proof fn lemma_wire_of_concat(a: Seq<Outgoing>, b: Seq<Outgoing>)
    ensures
        wire_of(a + b) == wire_of(a) + wire_of(b),
        wire_of(Seq::empty()) == Seq::<Seq<u8>>::empty(),
{
    assert(wire_of(a + b) =~= wire_of(a) + wire_of(b));
    assert(wire_of(Seq::empty()) =~= Seq::<Seq<u8>>::empty());
}

/// One end of a TCP connection that was opened by a peer.
pub struct Connection {
    state: State,
    send: SendSequenceSpace,
    recv: RecvSequenceSpace,
    template: Template,
    incoming: VecDeque<u8>,
    unacked: VecDeque<u8>,
    closed_at: Option<u32>,
}

impl View for Connection {
    type V = ConnectionView;

    closed spec fn view(&self) -> ConnectionView {
        ConnectionView {
            state: self.state,
            send: self.send,
            recv: self.recv,
            template: self.template,
            incoming: self.incoming@,
            unacked: self.unacked@,
            closed_at: self.closed_at,
        }
    }
}

/// Puts one datagram behind those that wait in `out`.
fn push_datagram(out: &mut Vec<Vec<u8>>, datagram: Vec<u8>)
    ensures
        datagrams(*final(out)) == datagrams(*old(out)).push(datagram@),
{
    out.push(datagram);
    assert(datagrams(*out) =~= datagrams(*old(out)).push(datagram@));
}

impl Connection {
    /// The window to advertise now.
    fn window(&self) -> (window: u16)
        ensures
            window == self@.advertised_window(),
    {
        let queued: usize = self.incoming.len();
        if queued <= 65535 {
            (65535 - queued) as u16
        } else {
            0
        }
    }

    /// Copies out of the send queue the payload of a segment at `seq`.
    fn payload_for(&self, seq: u32, limit: usize) -> (payload: Vec<u8>)
        ensures
            payload@ == self@.payload_for(seq, limit as nat),
            payload@.len() <= MAX_SEGMENT_PAYLOAD,
    {
        let mut offset: usize = seq.wrapping_sub(self.send.una) as usize;
        let mut limit: usize = limit;
        if let Some(closed_at) = self.closed_at {
            if seq == closed_at.wrapping_add(1) {
                offset = 0;
                limit = 0;
            }
        }
        let len: usize = self.unacked.len();
        if offset > len {
            offset = len;
        }
        let rest: usize = len - offset;
        let mut n: usize = if limit < rest {
            limit
        } else {
            rest
        };
        if n > MAX_SEGMENT_PAYLOAD {
            n = MAX_SEGMENT_PAYLOAD;
        }
        let mut payload: Vec<u8> = Vec::new();
        let mut i: usize = 0;
        while i < n
            invariant
                i <= n,
                offset + n <= len,
                len == self.unacked@.len(),
                payload@ == self.unacked@.subrange(offset as int, offset + i),
            decreases n - i,
        {
            payload.push(self.unacked[offset + i]);
            i += 1;
            assert(payload@ =~= self.unacked@.subrange(offset as int, offset + i));
        }
        assert(payload@ =~= self@.payload_for(seq, limit as nat));
        payload
    }

    /// The header of a segment at `seq`.
    fn header_for(&self, seq: u32) -> (header: SegmentHeader)
        ensures
            header == self@.header_for(seq),
    {
        SegmentHeader {
            source: self.template.local,
            destination: self.template.remote,
            source_port: self.template.local_port,
            destination_port: self.template.remote_port,
            sequence_number: seq,
            acknowledgment_number: self.recv.nxt,
            window_size: self.window(),
            fin: self.template.fin,
            syn: self.template.syn,
            rst: false,
            psh: self.template.psh,
            ack: self.template.ack,
        }
    }

    /// Serialises one segment at `seq` with at most `limit` bytes of the
    /// send queue into `out`. Returns the number of payload bytes in it.
    fn write(&mut self, seq: u32, limit: usize, out: &mut Vec<Vec<u8>>) -> (sent: usize)
        ensures
            sent == old(self)@.payload_for(seq, limit as nat).len(),
            final(self)@ == old(self)@.after_emit(seq, limit as nat),
            datagrams(*final(out)) == datagrams(*old(out)) + wire_of(
                old(self)@.emit(seq, limit as nat).emitted,
            ),
    {
        reveal(ConnectionView::after_emit);
        let payload = self.payload_for(seq, limit);
        let header = self.header_for(seq);
        let datagram = encode_segment(&header, payload.as_slice());
        let mut next_seq: u32 = seq.wrapping_add(payload.len() as u32);
        if self.template.syn {
            next_seq = next_seq.wrapping_add(1);
            self.template.syn = false;
        }
        if self.template.fin {
            next_seq = next_seq.wrapping_add(1);
            self.template.fin = false;
        }
        if wrapping_lt(self.send.nxt, next_seq) {
            self.send.nxt = next_seq;
        }
        self.recv.wnd = header.window_size;
        assert(wire_of(old(self)@.emit(seq, limit as nat).emitted) =~= seq![datagram@]);
        push_datagram(out, datagram);
        assert(datagrams(*out) =~= datagrams(*old(out)) + seq![datagram@]);
        payload.len()
    }

    /// The state of the connection.
    pub fn state(&self) -> (r: State)
        ensures
            r == self@.state,
    {
        self.state
    }

    /// The send sequence space.
    pub fn send_space(&self) -> (r: SendSequenceSpace)
        ensures
            r == self@.send,
    {
        self.send
    }

    /// The receive sequence space.
    pub fn recv_space(&self) -> (r: RecvSequenceSpace)
        ensures
            r == self@.recv,
    {
        self.recv
    }

    /// The sequence number of the local FIN, once the close was asked for.
    pub fn closed_at(&self) -> (r: Option<u32>)
        ensures
            r == self@.closed_at,
    {
        self.closed_at
    }

    /// Number of bytes that wait for the reader.
    pub fn incoming_len(&self) -> (r: usize)
        ensures
            r == self@.incoming.len(),
    {
        self.incoming.len()
    }

    /// Number of bytes written and not yet acknowledged.
    pub fn unacked_len(&self) -> (r: usize)
        ensures
            r == self@.unacked.len(),
    {
        self.unacked.len()
    }

    /// Whether nothing more will be delivered to the reader.
    pub fn is_rcv_closed(&self) -> (r: bool)
        ensures
            r == self@.is_rcv_closed(),
    {
        matches!(self.state, State::TimeWait | State::Closed)
    }

    fn availability(&self) -> (available: Available)
        ensures
            available == self@.availability(),
    {
        let mut available = Available::empty();
        if self.is_rcv_closed() || self.incoming.len() > 0 {
            available.insert(Available::read());
        }
        available
    }

    /// Passive open with the initial send sequence number 0.
    pub fn accept(seg: &SegmentHeader, out: &mut Vec<Vec<u8>>) -> (r: Option<Connection>)
        ensures
            r is Some == seg.syn,
            r matches Some(c) ==> ConnectionView::accept(*seg, 0) matches Some(step) && c@
                == step.next && c@.wf() && datagrams(*final(out)) == datagrams(*old(out))
                + wire_of(step.emitted),
            r is None ==> *final(out) == *old(out),
    {
        Self::accept_with_iss(seg, 0, out)
    }

    /// Passive open: a segment with SYN opens a connection that starts
    /// sending at `iss`, and the SYN|ACK goes into `out`; any other segment
    /// opens nothing.
    pub fn accept_with_iss(seg: &SegmentHeader, iss: u32, out: &mut Vec<Vec<u8>>) -> (r: Option<
        Connection,
    >)
        ensures
            r is Some == seg.syn,
            r matches Some(c) ==> ConnectionView::accept(*seg, iss) matches Some(step) && c@
                == step.next && c@.wf() && datagrams(*final(out)) == datagrams(*old(out))
                + wire_of(step.emitted),
            r is None ==> *final(out) == *old(out),
    {
        if !seg.syn {
            return None;
        }
        let mut c = Connection {
            state: State::SynRcv,
            send: SendSequenceSpace { una: iss, nxt: iss, wnd: seg.window_size },
            recv: RecvSequenceSpace {
                nxt: seg.sequence_number.wrapping_add(1),
                wnd: seg.window_size,
            },
            template: Template {
                local: seg.destination,
                local_port: seg.destination_port,
                remote: seg.source,
                remote_port: seg.source_port,
                syn: false,
                ack: false,
                fin: false,
                psh: false,
            },
            incoming: VecDeque::new(),
            unacked: VecDeque::new(),
            closed_at: None,
        };
        c.template.syn = true;
        c.template.ack = true;
        assert(c@ == ConnectionView::listen(*seg, iss));
        c.write(c.send.nxt, 0, out);
        proof {
            crate::laws::law_accept_well_formed(*seg, iss);
        }
        Some(c)
    }

    /// The acceptance test on an inbound segment.
    fn accepts(&self, seg: &SegmentHeader, payload: &[u8]) -> (r: bool)
        requires
            payload@.len() <= MAX_INBOUND_PAYLOAD,
        ensures
            r == self@.accepts(*seg, payload@),
    {
        let seqn: u32 = seg.sequence_number;
        let mut seg_len: u32 = payload.len() as u32;
        if seg.fin {
            seg_len += 1;
        }
        if seg.syn {
            seg_len += 1;
        }
        let rcv_wnd: u32 = self.recv.wnd as u32;
        if seg_len == 0 {
            if rcv_wnd == 0 {
                seqn == self.recv.nxt
            } else {
                between_wrapping(
                    self.recv.nxt.wrapping_sub(1),
                    seqn,
                    self.recv.nxt.wrapping_add(rcv_wnd),
                )
            }
        } else {
            if rcv_wnd == 0 {
                false
            } else {
                let seg_end: u32 = seqn.wrapping_add(seg_len - 1);
                between_wrapping(
                    self.recv.nxt.wrapping_sub(1),
                    seqn,
                    self.recv.nxt.wrapping_add(rcv_wnd),
                ) || between_wrapping(
                    self.recv.nxt.wrapping_sub(1),
                    seg_end,
                    self.recv.nxt.wrapping_add(rcv_wnd),
                )
            }
        }
    }

    /// Whether the acknowledgment number lies from `send.una` to
    /// `send.nxt`.
    fn ack_in_flight(&self, seg: &SegmentHeader) -> (r: bool)
        ensures
            r == self@.ack_in_flight(*seg),
    {
        between_wrapping(
            self.send.una.wrapping_sub(1),
            seg.acknowledgment_number,
            self.send.nxt.wrapping_add(1),
        )
    }

    /// Takes the acknowledgment of an inbound segment.
    fn take_ack(&mut self, seg: &SegmentHeader)
        ensures
            final(self)@ == old(self)@.after_ack(*seg),
    {
        reveal(ConnectionView::after_ack);
        let takes = matches!(
            self.state,
            State::Established
                | State::FinWait1
                | State::FinWait2
                | State::CloseWait
                | State::Closing
                | State::LastAck
        );
        if takes && self.ack_in_flight(seg) {
            let acked: usize = seg.acknowledgment_number.wrapping_sub(self.send.una) as usize;
            self.send.una = seg.acknowledgment_number;
            if acked <= self.unacked.len() {
                let rest = self.unacked.split_off(acked);
                self.unacked = rest;
                assert(self.unacked@ =~= old(self).unacked@.skip(acked as int));
            }
            self.send.wnd = seg.window_size;
        }
    }

    /// Moves the state where the local FIN has been acknowledged.
    fn take_fin_ack(&mut self)
        ensures
            final(self)@ == old(self)@.after_fin_acked(),
    {
        reveal(ConnectionView::after_fin_acked);
        if let Some(closed_at) = self.closed_at {
            if self.send.una == closed_at.wrapping_add(1) {
                match self.state {
                    State::FinWait1 => {
                        self.state = State::FinWait2;
                    },
                    State::Closing => {
                        self.state = State::TimeWait;
                    },
                    State::LastAck => {
                        self.state = State::Closed;
                    },
                    _ => {},
                }
            }
        }
    }

    /// Puts the bytes of `payload` from `from` on behind `incoming`.
    fn deliver(&mut self, payload: &[u8], from: usize)
        requires
            from <= payload@.len(),
        ensures
            final(self)@ == (ConnectionView {
                incoming: old(self)@.incoming + payload@.skip(from as int),
                ..old(self)@
            }),
    {
        let mut i: usize = from;
        while i < payload.len()
            invariant
                from <= i <= payload@.len(),
                self@ == (ConnectionView {
                    incoming: old(self)@.incoming + payload@.subrange(from as int, i as int),
                    ..old(self)@
                }),
            decreases payload@.len() - i,
        {
            self.incoming.push_back(payload[i]);
            i += 1;
            assert(self.incoming@ =~= old(self).incoming@ + payload@.subrange(
                from as int,
                i as int,
            ));
        }
        assert(payload@.subrange(from as int, i as int) =~= payload@.skip(from as int));
    }

    /// Delivers the payload of an inbound segment.
    fn take_payload(&mut self, seg: &SegmentHeader, payload: &[u8], out: &mut Vec<Vec<u8>>)
        requires
            payload@.len() <= MAX_INBOUND_PAYLOAD,
        ensures
            final(self)@ == old(self)@.after_payload(*seg, payload@).next,
            datagrams(*final(out)) == datagrams(*old(out)) + wire_of(
                old(self)@.after_payload(*seg, payload@).emitted,
            ),
    {
        reveal(ConnectionView::after_payload);
        let takes = matches!(self.state, State::Established | State::FinWait1 | State::FinWait2);
        let seqn: u32 = seg.sequence_number;
        if payload.len() > 0 && takes && seqn == self.recv.nxt {
            self.deliver(payload, 0);
            self.recv.nxt = self.recv.nxt.wrapping_add(payload.len() as u32);
            assert(payload@.skip(0) =~= payload@);
            self.write(self.send.nxt, 0, out);
        } else if payload.len() > 0 && takes && wrapping_lt(seqn, self.recv.nxt) {
            let already_received: usize = self.recv.nxt.wrapping_sub(seqn) as usize;
            if already_received < payload.len() {
                self.deliver(payload, already_received);
                self.recv.nxt = self.recv.nxt.wrapping_add(
                    (payload.len() - already_received) as u32,
                );
            } else {
                assert(self.incoming@ + Seq::<u8>::empty() =~= self.incoming@);
                assert(self.recv.nxt.wrapping_add(0) == self.recv.nxt);
            }
            self.write(self.send.nxt, 0, out);
        } else {
            proof {
                lemma_wire_of_concat(Seq::empty(), Seq::empty());
            }
            assert(datagrams(*out) + Seq::<Seq<u8>>::empty() =~= datagrams(*out));
        }
    }

    /// Takes the FIN of an inbound segment.
    fn take_fin(&mut self, seg: &SegmentHeader, out: &mut Vec<Vec<u8>>)
        ensures
            final(self)@ == old(self)@.after_fin(*seg).next,
            datagrams(*final(out)) == datagrams(*old(out)) + wire_of(
                old(self)@.after_fin(*seg).emitted,
            ),
    {
        reveal(ConnectionView::after_fin);
        let takes = matches!(self.state, State::Established | State::FinWait1 | State::FinWait2);
        if seg.fin && takes {
            self.recv.nxt = self.recv.nxt.wrapping_add(1);
            self.write(self.send.nxt, 0, out);
            match self.state {
                State::Established => {
                    self.state = State::CloseWait;
                },
                State::FinWait1 => {
                    if let Some(closed_at) = self.closed_at {
                        if self.send.una == closed_at.wrapping_add(1) {
                            self.state = State::TimeWait;
                        } else {
                            self.state = State::Closing;
                        }
                    }
                },
                State::FinWait2 => {
                    self.state = State::TimeWait;
                },
                _ => {},
            }
        } else {
            proof {
                lemma_wire_of_concat(Seq::empty(), Seq::empty());
            }
            assert(datagrams(*out) + Seq::<Seq<u8>>::empty() =~= datagrams(*out));
        }
    }

    /// An acceptable segment with ACK: the acknowledgment, then the
    /// payload, then the FIN.
    fn take_acknowledged(&mut self, seg: &SegmentHeader, payload: &[u8], out: &mut Vec<Vec<u8>>)
        requires
            payload@.len() <= MAX_INBOUND_PAYLOAD,
        ensures
            final(self)@ == old(self)@.after_acknowledged(*seg, payload@).next,
            datagrams(*final(out)) == datagrams(*old(out)) + wire_of(
                old(self)@.after_acknowledged(*seg, payload@).emitted,
            ),
    {
        proof {
            lemma_wire_of_concat(Seq::empty(), Seq::empty());
        }
        assert(datagrams(*out) + Seq::<Seq<u8>>::empty() =~= datagrams(*out));
        if self.state == State::SynRcv {
            if self.ack_in_flight(seg) {
                self.send.una = seg.acknowledgment_number;
                self.state = State::Established;
            } else {
                return ;
            }
        }
        self.take_ack(seg);
        let before = self.state;
        self.take_fin_ack();
        if self.state != before && self.is_rcv_closed() {
            return ;
        }
        let ghost moved = self@;
        self.take_payload(seg, payload, out);
        let ghost delivered = self@;
        self.take_fin(seg, out);
        proof {
            lemma_wire_of_concat(
                moved.after_payload(*seg, payload@).emitted,
                delivered.after_fin(*seg).emitted,
            );
        }
        assert(datagrams(*out) =~= datagrams(*old(out)) + (wire_of(
            moved.after_payload(*seg, payload@).emitted,
        ) + wire_of(delivered.after_fin(*seg).emitted)));
    }

    /// Takes an inbound segment: runs the acceptance test, then looks at
    /// RST, SYN, ACK, payload and FIN in this order. What is emitted goes
    /// into `out`. Returns what the connection is then ready for.
    pub fn on_packet(&mut self, seg: &SegmentHeader, payload: &[u8], out: &mut Vec<Vec<u8>>) -> (available:
        Available)
        requires
            old(self)@.wf(),
            payload@.len() <= MAX_INBOUND_PAYLOAD,
        ensures
            final(self)@ == old(self)@.on_packet(*seg, payload@).next,
            datagrams(*final(out)) == datagrams(*old(out)) + wire_of(
                old(self)@.on_packet(*seg, payload@).emitted,
            ),
            final(self)@.wf(),
            available == final(self)@.availability(),
    {
        proof {
            lemma_wire_of_concat(Seq::empty(), Seq::empty());
            crate::laws::law_well_formed_kept(self@, Event::Packet { seg: *seg, payload: payload@ });
        }
        assert(datagrams(*out) + Seq::<Seq<u8>>::empty() =~= datagrams(*out));
        if !self.accepts(seg, payload) {
            if seg.ack {
                self.write(self.send.nxt, 0, out);
            }
            return self.availability();
        }
        if seg.rst {
            match self.state {
                State::SynRcv
                | State::Established
                | State::FinWait1
                | State::FinWait2
                | State::CloseWait => {
                    self.state = State::Closed;
                    return self.availability();
                },
                _ => {},
            }
        }
        if seg.syn && self.state.is_synchronized() {
            self.state = State::Closed;
            return self.availability();
        }
        if !seg.ack {
            if seg.syn && payload.len() == 0 {
                let seg_len: u32 = if seg.fin {
                    2
                } else {
                    1
                };
                self.recv.nxt = seg.sequence_number.wrapping_add(seg_len);
            }
            return self.availability();
        }
        self.take_acknowledged(seg, payload, out);
        self.availability()
    }

    /// First half of a tick: sends the head of the send queue again.
    fn retransmit(&mut self, out: &mut Vec<Vec<u8>>)
        requires
            !old(self)@.template.psh,
        ensures
            final(self)@ == old(self)@.after_retransmit().next,
            datagrams(*final(out)) == datagrams(*old(out)) + wire_of(
                old(self)@.after_retransmit().emitted,
            ),
    {
        proof {
            lemma_wire_of_concat(Seq::empty(), Seq::empty());
        }
        assert(datagrams(*out) + Seq::<Seq<u8>>::empty() =~= datagrams(*out));
        if self.unacked.len() > 0 {
            self.template.psh = true;
            let inflight: usize = self.send.nxt.wrapping_sub(self.send.una) as usize;
            let wnd: usize = self.send.wnd as usize;
            let available_window: usize = if wnd >= inflight {
                wnd - inflight
            } else {
                0
            };
            let size: usize = if self.unacked.len() < available_window {
                self.unacked.len()
            } else {
                available_window
            };
            assert(size == old(self)@.sendable());
            if size > 0 {
                self.write(self.send.una, size, out);
            }
            self.template.psh = false;
        }
    }

    /// Second half of a tick: in `CloseWait`, sends the FIN.
    fn finish_close_wait(&mut self, out: &mut Vec<Vec<u8>>)
        requires
            old(self)@.unacked.len() <= SENDQUEUE_SIZE,
        ensures
            final(self)@ == old(self)@.after_close_wait().next,
            datagrams(*final(out)) == datagrams(*old(out)) + wire_of(
                old(self)@.after_close_wait().emitted,
            ),
    {
        proof {
            lemma_wire_of_concat(Seq::empty(), Seq::empty());
        }
        assert(datagrams(*out) + Seq::<Seq<u8>>::empty() =~= datagrams(*out));
        if self.state == State::CloseWait {
            self.template.fin = true;
            self.closed_at = Some(self.send.una.wrapping_add(self.unacked.len() as u32));
            self.write(self.send.una, 0, out);
            self.state = State::LastAck;
        }
    }

    /// The idle tick: sends the head of the send queue again as far as the
    /// peer's window allows, and in `CloseWait` sends the FIN.
    pub fn on_tick(&mut self, out: &mut Vec<Vec<u8>>)
        requires
            old(self)@.wf(),
        ensures
            final(self)@ == old(self)@.on_tick().next,
            datagrams(*final(out)) == datagrams(*old(out)) + wire_of(
                old(self)@.on_tick().emitted,
            ),
            final(self)@.wf(),
    {
        proof {
            crate::laws::law_well_formed_kept(self@, Event::Tick);
            crate::lemmas::lemma_after_retransmit(self@);
        }
        self.retransmit(out);
        let ghost first = old(self)@.after_retransmit();
        self.finish_close_wait(out);
        proof {
            lemma_wire_of_concat(first.emitted, first.next.after_close_wait().emitted);
        }
        assert(datagrams(*out) =~= datagrams(*old(out)) + (wire_of(first.emitted) + wire_of(
            first.next.after_close_wait().emitted,
        )));
    }

    /// The application asks to close: the FIN is set for the next segment
    /// that goes out. Fails once the connection is closing or closed for
    /// both sides.
    pub fn close(&mut self) -> (r: Result<(), NetError>)
        requires
            old(self)@.wf(),
        ensures
            final(self)@ == old(self)@.close(),
            final(self)@.wf(),
            r is Ok == old(self)@.can_close(),
            r matches Err(e) ==> e == NetError::NotConnected,
    {
        match self.state {
            State::SynRcv | State::Established => {
                self.template.fin = true;
                self.closed_at = Some(self.send.una.wrapping_add(self.unacked.len() as u32));
                self.state = State::FinWait1;
            },
            State::CloseWait => {
                self.template.fin = true;
                self.closed_at = Some(self.send.una.wrapping_add(self.unacked.len() as u32));
                self.state = State::LastAck;
            },
            State::FinWait1 | State::FinWait2 | State::LastAck => {},
            _ => {
                return Err(NetError::NotConnected);
            },
        }
        Ok(())
    }

    /// The application writes: as much of `buf` as the send queue has room
    /// for joins it. Fails where the queue is full.
    pub fn queue(&mut self, buf: &[u8]) -> (r: Result<usize, NetError>)
        requires
            old(self)@.wf(),
        ensures
            final(self)@ == old(self)@.queue(buf@),
            final(self)@.wf(),
            r is Ok == (old(self)@.unacked.len() < SENDQUEUE_SIZE),
            r matches Ok(n) ==> n == old(self)@.takes(buf@),
            r matches Err(e) ==> e == NetError::WouldBlock,
    {
        if self.unacked.len() >= SENDQUEUE_SIZE {
            assert(buf@.take(0) =~= Seq::<u8>::empty());
            assert(self.unacked@ + Seq::<u8>::empty() =~= self.unacked@);
            return Err(NetError::WouldBlock);
        }
        let room: usize = SENDQUEUE_SIZE - self.unacked.len();
        let nwrite: usize = if buf.len() < room {
            buf.len()
        } else {
            room
        };
        let mut i: usize = 0;
        while i < nwrite
            invariant
                i <= nwrite <= buf@.len(),
                self@ == (ConnectionView {
                    unacked: old(self)@.unacked + buf@.take(i as int),
                    ..old(self)@
                }),
            decreases nwrite - i,
        {
            self.unacked.push_back(buf[i]);
            i += 1;
            assert(self.unacked@ =~= old(self).unacked@ + buf@.take(i as int));
        }
        Ok(nwrite)
    }

    /// The application reads: the head of `incoming` moves into the front
    /// of `buf`. Returns the number of bytes moved; 0 at the end of the
    /// stream; `None` where the reader has to wait.
    pub fn dequeue(&mut self, buf: &mut [u8]) -> (r: Option<usize>)
        requires
            old(self)@.wf(),
        ensures
            final(self)@ == old(self)@.dequeue(old(buf)@.len()),
            final(self)@.wf(),
            r is Some == old(self)@.readable(),
            r matches Some(n) ==> n == old(self)@.gives(old(buf)@.len()),
            final(buf)@ == old(self)@.incoming.take(old(self)@.gives(old(buf)@.len()) as int)
                + old(buf)@.skip(old(self)@.gives(old(buf)@.len()) as int),
    {
        assert(self.incoming@.skip(0) =~= self.incoming@);
        assert(self.incoming@.take(0) + buf@.skip(0) =~= buf@);
        if self.incoming.len() == 0 {
            if self.is_rcv_closed() {
                return Some(0);
            }
            return None;
        }
        let room: usize = buf.len();
        let nread: usize = if self.incoming.len() < room {
            self.incoming.len()
        } else {
            room
        };
        let mut i: usize = 0;
        while i < nread
            invariant
                i <= nread,
                nread <= old(self)@.incoming.len(),
                nread <= room,
                buf@.len() == room,
                room == old(buf)@.len(),
                self@ == (ConnectionView {
                    incoming: old(self)@.incoming.skip(i as int),
                    ..old(self)@
                }),
                buf@ == old(self)@.incoming.take(i as int) + old(buf)@.skip(i as int),
            decreases nread - i,
        {
            let byte = self.incoming.pop_front().unwrap();
            buf[i] = byte;
            i += 1;
            assert(self.incoming@ =~= old(self).incoming@.skip(i as int));
            assert(buf@ =~= old(self)@.incoming.take(i as int) + old(buf)@.skip(i as int));
        }
        Some(nread)
    }
}

} // verus!
