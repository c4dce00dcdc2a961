//! The connection as a mathematical state machine: what a connection is,
//! when it is well formed, and what each event makes of it.

use crate::available::Available;
use crate::sequence::{ring_distance, spec_between_wrapping, spec_within_wrapping, spec_wrapping_lt};
use crate::wire::{SegmentHeader, MAX_SEGMENT_PAYLOAD};
use vstd::prelude::*;

verus! {

/// Most bytes that wait in a connection's send queue.
pub const SENDQUEUE_SIZE: usize = 1024;

/// Most payload bytes of one inbound segment: what an IPv4 datagram holds.
pub const MAX_INBOUND_PAYLOAD: usize = 65535;

/// The states of a connection that was opened passively.
#[derive(Clone, Copy, Debug, PartialEq, Eq, Structural)]
pub enum State {
    SynRcv,
    Established,
    FinWait1,
    FinWait2,
    CloseWait,
    Closing,
    TimeWait,
    LastAck,
    Closed,
}

impl State {
    /// Every state but `SynRcv` is synchronized.
    pub open spec fn spec_is_synchronized(&self) -> bool {
        *self != State::SynRcv
    }

    /// In these states nothing more is delivered to the reader.
    pub open spec fn spec_is_rcv_closed(self) -> bool {
        self == State::TimeWait || self == State::Closed
    }

    /// In these states the local side has not asked to close yet.
    pub open spec fn before_close(self) -> bool {
        self == State::SynRcv || self == State::Established || self == State::CloseWait
    }

    /// In these states a reset closes the connection.
    pub open spec fn reset_closes(self) -> bool {
        self == State::SynRcv || self == State::Established || self == State::FinWait1 || self
            == State::FinWait2 || self == State::CloseWait
    }

    /// In these states an acknowledgment moves the send window.
    pub open spec fn takes_ack(self) -> bool {
        self == State::Established || self == State::FinWait1 || self == State::FinWait2 || self
            == State::CloseWait || self == State::Closing || self == State::LastAck
    }

    /// In these states payload is delivered to the reader.
    pub open spec fn takes_payload(self) -> bool {
        self == State::Established || self == State::FinWait1 || self == State::FinWait2
    }

    /// Whether the handshake is over.
    #[verifier::when_used_as_spec(spec_is_synchronized)]
    pub fn is_synchronized(&self) -> (r: bool)
        ensures
            r == self.spec_is_synchronized(),
    {
        match self {
            State::SynRcv => false,
            State::Established
            | State::FinWait1
            | State::FinWait2
            | State::TimeWait
            | State::Closing
            | State::CloseWait
            | State::LastAck
            | State::Closed => true,
        }
    }
}

/// The send sequence space: oldest unacknowledged number, next number to
/// send, and the window that the peer advertised.
#[derive(Clone, Copy, Debug, PartialEq, Eq, Structural)]
pub struct SendSequenceSpace {
    pub una: u32,
    pub nxt: u32,
    pub wnd: u16,
}

/// The receive sequence space: next number expected, and the window that
/// was advertised last.
#[derive(Clone, Copy, Debug, PartialEq, Eq, Structural)]
pub struct RecvSequenceSpace {
    pub nxt: u32,
    pub wnd: u16,
}

/// What stays in the headers from one outbound segment to the next: the
/// two endpoints, and the flags of the next segment. SYN and FIN are sent
/// once and then cleared.
#[derive(Clone, Copy, Debug)]
pub struct Template {
    pub local: [u8; 4],
    pub local_port: u16,
    pub remote: [u8; 4],
    pub remote_port: u16,
    pub syn: bool,
    pub ack: bool,
    pub fin: bool,
    pub psh: bool,
}

/// An outbound segment before it is serialised.
pub struct Outgoing {
    pub header: SegmentHeader,
    pub payload: Seq<u8>,
}

/// A connection after a step, and the segments that the step emitted, in
/// order.
pub struct Step {
    pub next: ConnectionView,
    pub emitted: Seq<Outgoing>,
}

/// The value of a connection.
pub struct ConnectionView {
    pub state: State,
    pub send: SendSequenceSpace,
    pub recv: RecvSequenceSpace,
    pub template: Template,
    pub incoming: Seq<u8>,
    pub unacked: Seq<u8>,
    pub closed_at: Option<u32>,
}

/// Sequence numbers that a segment takes: one for each payload byte, one
/// for SYN and one for FIN.
pub open spec fn segment_len(seg: SegmentHeader, payload_len: nat) -> int {
    payload_len + (if seg.syn { 1int } else { 0int }) + (if seg.fin { 1int } else { 0int })
}

/// `x` lies in the receive window of `wnd` numbers that starts at `nxt`.
pub open spec fn in_window(nxt: u32, wnd: u16, x: u32) -> bool {
    spec_between_wrapping(nxt.wrapping_sub(1), x, nxt.wrapping_add(wnd as u32))
}

/// The acceptance test for an inbound segment that starts at `seq` and
/// takes `len` sequence numbers.
pub open spec fn acceptable(nxt: u32, wnd: u16, seq: u32, len: int) -> bool
    recommends
        0 <= len <= u32::MAX,
{
    if len == 0 {
        if wnd == 0 {
            seq == nxt
        } else {
            in_window(nxt, wnd, seq)
        }
    } else {
        if wnd == 0 {
            false
        } else {
            in_window(nxt, wnd, seq) || in_window(nxt, wnd, seq.wrapping_add((len - 1) as u32))
        }
    }
}

/// What can happen to a connection once it is open.
pub enum Event {
    /// A segment arrived.
    Packet { seg: SegmentHeader, payload: Seq<u8> },
    /// The pump was idle.
    Tick,
    /// The application asked to close.
    Close,
    /// The application wrote `buf`.
    Write { buf: Seq<u8> },
    /// The application read into a buffer of `room` bytes.
    Read { room: nat },
}

impl ConnectionView {
    /// Sequence numbers sent and not yet acknowledged.
    pub open spec fn inflight(self) -> int {
        ring_distance(self.send.una, self.send.nxt)
    }

    /// The local FIN has been emitted.
    pub open spec fn fin_sent(self) -> bool {
        self.closed_at is Some && !self.template.fin
    }

    /// Sequence numbers that emitted control flags may still hold in
    /// flight: one for the SYN, one more once the FIN has gone out.
    pub open spec fn control_inflight(self) -> int {
        1 + (if self.fin_sent() { 1int } else { 0int })
    }

    /// The window to advertise: what is left of 65535 bytes of buffer.
    pub open spec fn advertised_window(self) -> u16 {
        if self.incoming.len() <= 65535 {
            (65535 - self.incoming.len()) as u16
        } else {
            0
        }
    }

    /// What holds of the sending side at any time after the SYN|ACK went
    /// out: the send queue is bounded; the numbers in flight are at most
    /// the queued bytes and the control flags sent; the FIN is set or sent
    /// only after a close; SYN and PSH are not left set.
    pub open spec fn wf_send(self) -> bool {
        &&& self.unacked.len() <= SENDQUEUE_SIZE
        &&& self.inflight() <= self.unacked.len() + self.control_inflight()
        &&& !spec_wrapping_lt(self.send.nxt, self.send.una)
        &&& self.template.fin ==> self.closed_at is Some
        &&& self.state.before_close() ==> self.closed_at is None
        &&& !self.template.syn
        &&& self.template.ack
        &&& !self.template.psh
    }

    /// What holds of the receiving side between any two events: the
    /// window advertised last is no more than the buffer has left.
    pub open spec fn wf_recv(self) -> bool {
        self.recv.wnd <= self.advertised_window()
    }

    /// What holds of a connection between any two events.
    pub open spec fn wf(self) -> bool {
        self.wf_send() && self.wf_recv()
    }

    /// The end of the stream has been reached for the reader.
    pub open spec fn is_rcv_closed(self) -> bool {
        self.state.spec_is_rcv_closed()
    }

    /// A read would return at once.
    pub open spec fn readable(self) -> bool {
        self.is_rcv_closed() || self.incoming.len() > 0
    }

    /// What the connection is ready for: `READ` where a read would return
    /// at once. `WRITE` is never reported.
    pub open spec fn availability(self) -> Available {
        Available { read: self.readable(), write: false }
    }

    /// `seq` is the number that follows the local FIN.
    pub open spec fn past_fin(self, seq: u32) -> bool {
        self.closed_at matches Some(c) && seq == c.wrapping_add(1)
    }

    /// The payload of a segment emitted at `seq` with at most `limit`
    /// bytes: the queued bytes from `seq` on, as far as the limit and one
    /// datagram allow; nothing behind the local FIN.
    pub open spec fn payload_for(self, seq: u32, limit: nat) -> Seq<u8> {
        let offset = ring_distance(self.send.una, seq);
        if self.past_fin(seq) || offset >= self.unacked.len() {
            Seq::empty()
        } else {
            let rest = self.unacked.len() - offset;
            let n = if limit < rest {
                limit as int
            } else {
                rest
            };
            let n = if n < MAX_SEGMENT_PAYLOAD {
                n
            } else {
                MAX_SEGMENT_PAYLOAD as int
            };
            self.unacked.subrange(offset, offset + n)
        }
    }

    /// The header of a segment emitted at `seq`.
    pub open spec fn header_for(self, seq: u32) -> SegmentHeader {
        SegmentHeader {
            source: self.template.local,
            destination: self.template.remote,
            source_port: self.template.local_port,
            destination_port: self.template.remote_port,
            sequence_number: seq,
            acknowledgment_number: self.recv.nxt,
            window_size: self.advertised_window(),
            fin: self.template.fin,
            syn: self.template.syn,
            rst: false,
            psh: self.template.psh,
            ack: self.template.ack,
        }
    }

    /// The segment emitted at `seq` with at most `limit` payload bytes.
    pub open spec fn outgoing(self, seq: u32, limit: nat) -> Outgoing {
        Outgoing { header: self.header_for(seq), payload: self.payload_for(seq, limit) }
    }

    /// The number that follows a segment emitted at `seq`.
    pub open spec fn next_seq(self, seq: u32, limit: nat) -> u32 {
        seq.wrapping_add(self.payload_for(seq, limit).len() as u32).wrapping_add(
            if self.template.syn {
                1u32
            } else {
                0u32
            },
        ).wrapping_add(
            if self.template.fin {
                1u32
            } else {
                0u32
            },
        )
    }

    /// The connection after a segment was emitted at `seq`: `send.nxt`
    /// moves up to the end of the segment, the advertised window is
    /// recorded, SYN and FIN are cleared.
    #[verifier::opaque]
    pub open spec fn after_emit(self, seq: u32, limit: nat) -> ConnectionView {
        let next_seq = self.next_seq(seq, limit);
        ConnectionView {
            send: SendSequenceSpace {
                nxt: if spec_wrapping_lt(self.send.nxt, next_seq) {
                    next_seq
                } else {
                    self.send.nxt
                },
                ..self.send
            },
            recv: RecvSequenceSpace { wnd: self.advertised_window(), ..self.recv },
            template: Template { syn: false, fin: false, ..self.template },
            ..self
        }
    }

    /// Emits one segment at `seq` with at most `limit` payload bytes.
    pub open spec fn emit(self, seq: u32, limit: nat) -> Step {
        Step { next: self.after_emit(seq, limit), emitted: seq![self.outgoing(seq, limit)] }
    }

    /// Emits an empty acknowledgment at `send.nxt`.
    pub open spec fn emit_ack(self) -> Step {
        self.emit(self.send.nxt, 0)
    }

    /// Changes nothing and emits nothing.
    pub open spec fn stay(self) -> Step {
        Step { next: self, emitted: Seq::empty() }
    }

    /// The connection that a SYN opens, before the SYN|ACK goes out.
    pub open spec fn listen(seg: SegmentHeader, iss: u32) -> ConnectionView {
        ConnectionView {
            state: State::SynRcv,
            send: SendSequenceSpace { una: iss, nxt: iss, wnd: seg.window_size },
            recv: RecvSequenceSpace {
                nxt: seg.sequence_number.wrapping_add(1),
                wnd: seg.window_size,
            },
            template: Template {
                local: seg.destination,
                local_port: seg.destination_port,
                remote: seg.source,
                remote_port: seg.source_port,
                syn: true,
                ack: true,
                fin: false,
                psh: false,
            },
            incoming: Seq::empty(),
            unacked: Seq::empty(),
            closed_at: None,
        }
    }

    /// Passive open: a segment with SYN opens a connection in `SynRcv` and
    /// is answered with SYN|ACK; any other segment opens none.
    pub open spec fn accept(seg: SegmentHeader, iss: u32) -> Option<Step> {
        if seg.syn {
            Some(Self::listen(seg, iss).emit(iss, 0))
        } else {
            None
        }
    }

    /// The inbound segment passes the acceptance test.
    pub open spec fn accepts(self, seg: SegmentHeader, payload: Seq<u8>) -> bool {
        acceptable(
            self.recv.nxt,
            self.recv.wnd,
            seg.sequence_number,
            segment_len(seg, payload.len()),
        )
    }

    /// The acknowledgment number lies between `send.una` and `send.nxt`,
    /// both included.
    pub open spec fn ack_in_flight(self, seg: SegmentHeader) -> bool {
        spec_within_wrapping(self.send.una, seg.acknowledgment_number, self.send.nxt)
    }

    /// The acknowledgment of an inbound segment moves `send.una` up to it,
    /// takes the acknowledged bytes off the send queue where the queue
    /// holds that many, and records the peer's window.
    #[verifier::opaque]
    pub open spec fn after_ack(self, seg: SegmentHeader) -> ConnectionView {
        if self.state.takes_ack() && self.ack_in_flight(seg) {
            let acked = ring_distance(self.send.una, seg.acknowledgment_number);
            ConnectionView {
                send: SendSequenceSpace {
                    una: seg.acknowledgment_number,
                    wnd: seg.window_size,
                    ..self.send
                },
                unacked: if acked <= self.unacked.len() {
                    self.unacked.skip(acked)
                } else {
                    self.unacked
                },
                ..self
            }
        } else {
            self
        }
    }

    /// The local FIN has been acknowledged.
    pub open spec fn fin_acked(self) -> bool {
        self.closed_at matches Some(c) && self.send.una == c.wrapping_add(1)
    }

    /// The state after the acknowledgment was taken: an acknowledged FIN
    /// ends `FinWait1`, `Closing` and `LastAck`.
    #[verifier::opaque]
    pub open spec fn after_fin_acked(self) -> ConnectionView {
        if self.fin_acked() {
            match self.state {
                State::FinWait1 => ConnectionView { state: State::FinWait2, ..self },
                State::Closing => ConnectionView { state: State::TimeWait, ..self },
                State::LastAck => ConnectionView { state: State::Closed, ..self },
                _ => self,
            }
        } else {
            self
        }
    }

    /// The bytes of an inbound payload that are new to the reader: all of
    /// it where the segment starts at `recv.nxt`, the part from `recv.nxt`
    /// on where it starts before, nothing where it starts behind.
    pub open spec fn fresh(self, seg: SegmentHeader, payload: Seq<u8>) -> Seq<u8> {
        if seg.sequence_number == self.recv.nxt {
            payload
        } else if spec_wrapping_lt(seg.sequence_number, self.recv.nxt) {
            let skip = ring_distance(seg.sequence_number, self.recv.nxt);
            if skip < payload.len() {
                payload.skip(skip)
            } else {
                Seq::empty()
            }
        } else {
            Seq::empty()
        }
    }

    /// Payload is delivered in `Established`, `FinWait1` and `FinWait2`:
    /// the new bytes join `incoming`, `recv.nxt` moves behind them, and a
    /// segment that does not start behind `recv.nxt` is acknowledged.
    #[verifier::opaque]
    pub open spec fn after_payload(self, seg: SegmentHeader, payload: Seq<u8>) -> Step {
        if payload.len() > 0 && self.state.takes_payload() && (seg.sequence_number == self.recv.nxt
            || spec_wrapping_lt(seg.sequence_number, self.recv.nxt)) {
            let fresh = self.fresh(seg, payload);
            ConnectionView {
                incoming: self.incoming + fresh,
                recv: RecvSequenceSpace {
                    nxt: self.recv.nxt.wrapping_add(fresh.len() as u32),
                    ..self.recv
                },
                ..self
            }.emit_ack()
        } else {
            self.stay()
        }
    }

    /// The state that a FIN of the peer leads to.
    pub open spec fn state_after_fin(self) -> State {
        match self.state {
            State::Established => State::CloseWait,
            State::FinWait1 => if self.closed_at is Some {
                if self.fin_acked() {
                    State::TimeWait
                } else {
                    State::Closing
                }
            } else {
                State::FinWait1
            },
            State::FinWait2 => State::TimeWait,
            other => other,
        }
    }

    /// A FIN of the peer takes one sequence number and is acknowledged in
    /// `Established`, `FinWait1` and `FinWait2`; elsewhere it is ignored.
    #[verifier::opaque]
    pub open spec fn after_fin(self, seg: SegmentHeader) -> Step {
        if seg.fin && self.state.takes_payload() {
            let acked = ConnectionView {
                recv: RecvSequenceSpace { nxt: self.recv.nxt.wrapping_add(1), ..self.recv },
                ..self
            }.emit_ack();
            Step {
                next: ConnectionView { state: acked.next.state_after_fin(), ..acked.next },
                emitted: acked.emitted,
            }
        } else {
            self.stay()
        }
    }

    /// An acceptable segment with ACK, after reset and SYN were looked at:
    /// the acknowledgment, then the payload, then the FIN.
    pub open spec fn after_acknowledged(self, seg: SegmentHeader, payload: Seq<u8>) -> Step {
        if self.state == State::SynRcv && !self.ack_in_flight(seg) {
            self.stay()
        } else {
            let opened = if self.state == State::SynRcv {
                ConnectionView {
                    state: State::Established,
                    send: SendSequenceSpace { una: seg.acknowledgment_number, ..self.send },
                    ..self
                }
            } else {
                self
            };
            let acked = opened.after_ack(seg);
            let moved = acked.after_fin_acked();
            if moved.state != acked.state && moved.is_rcv_closed() {
                moved.stay()
            } else {
                let delivered = moved.after_payload(seg, payload);
                let finished = delivered.next.after_fin(seg);
                Step { next: finished.next, emitted: delivered.emitted + finished.emitted }
            }
        }
    }

    /// What an inbound segment makes of the connection.
    pub open spec fn on_packet(self, seg: SegmentHeader, payload: Seq<u8>) -> Step {
        if !self.accepts(seg, payload) {
            if seg.ack {
                self.emit_ack()
            } else {
                self.stay()
            }
        } else if seg.rst && self.state.reset_closes() {
            ConnectionView { state: State::Closed, ..self }.stay()
        } else if seg.syn && self.state.spec_is_synchronized() {
            ConnectionView { state: State::Closed, ..self }.stay()
        } else if !seg.ack {
            if seg.syn && payload.len() == 0 {
                ConnectionView {
                    recv: RecvSequenceSpace {
                        nxt: seg.sequence_number.wrapping_add(
                            segment_len(seg, payload.len()) as u32,
                        ),
                        ..self.recv
                    },
                    ..self
                }.stay()
            } else {
                self.stay()
            }
        } else {
            self.after_acknowledged(seg, payload)
        }
    }

    /// Bytes of the send queue that a tick sends: what the peer's window
    /// leaves room for behind the numbers in flight.
    pub open spec fn sendable(self) -> nat {
        let room = self.send.wnd - self.inflight();
        if room <= 0 {
            0
        } else if room < self.unacked.len() {
            room as nat
        } else {
            self.unacked.len()
        }
    }

    /// First half of a tick: the head of the send queue goes out again,
    /// with PSH, as far as the peer's window allows.
    pub open spec fn after_retransmit(self) -> Step {
        if self.unacked.len() > 0 && self.sendable() > 0 {
            let sent = ConnectionView { template: Template { psh: true, ..self.template }, ..self }.emit(
                self.send.una,
                self.sendable(),
            );
            Step {
                next: ConnectionView {
                    template: Template { psh: false, ..sent.next.template },
                    ..sent.next
                },
                emitted: sent.emitted,
            }
        } else {
            self.stay()
        }
    }

    /// Second half of a tick: in `CloseWait` the FIN goes out and the
    /// connection moves to `LastAck`.
    pub open spec fn after_close_wait(self) -> Step {
        if self.state == State::CloseWait {
            let sent = ConnectionView {
                template: Template { fin: true, ..self.template },
                closed_at: Some(self.send.una.wrapping_add(self.unacked.len() as u32)),
                ..self
            }.emit(self.send.una, 0);
            Step {
                next: ConnectionView { state: State::LastAck, ..sent.next },
                emitted: sent.emitted,
            }
        } else {
            self.stay()
        }
    }

    /// What a tick makes of the connection.
    pub open spec fn on_tick(self) -> Step {
        let first = self.after_retransmit();
        let second = first.next.after_close_wait();
        Step { next: second.next, emitted: first.emitted + second.emitted }
    }

    /// The local side may ask to close in this state.
    pub open spec fn can_close(self) -> bool {
        self.state != State::Closing && self.state != State::TimeWait && self.state
            != State::Closed
    }

    /// What a request to close makes of the connection: before the close
    /// the FIN is set for the next segment and its place recorded; a
    /// second request changes nothing.
    pub open spec fn close(self) -> ConnectionView {
        if self.state.before_close() {
            ConnectionView {
                state: if self.state == State::CloseWait {
                    State::LastAck
                } else {
                    State::FinWait1
                },
                template: Template { fin: true, ..self.template },
                closed_at: Some(self.send.una.wrapping_add(self.unacked.len() as u32)),
                ..self
            }
        } else {
            self
        }
    }

    /// Bytes of `buf` that the send queue takes.
    pub open spec fn takes(self, buf: Seq<u8>) -> nat {
        if self.unacked.len() >= SENDQUEUE_SIZE {
            0
        } else if buf.len() <= SENDQUEUE_SIZE - self.unacked.len() {
            buf.len()
        } else {
            (SENDQUEUE_SIZE - self.unacked.len()) as nat
        }
    }

    /// The connection after the application wrote `buf`.
    pub open spec fn queue(self, buf: Seq<u8>) -> ConnectionView {
        ConnectionView { unacked: self.unacked + buf.take(self.takes(buf) as int), ..self }
    }

    /// Bytes that a read into a buffer of `room` bytes hands over.
    pub open spec fn gives(self, room: nat) -> nat {
        if self.incoming.len() <= room {
            self.incoming.len()
        } else {
            room
        }
    }

    /// The connection after the application read into `room` bytes.
    pub open spec fn dequeue(self, room: nat) -> ConnectionView {
        ConnectionView { incoming: self.incoming.skip(self.gives(room) as int), ..self }
    }

    /// What an event makes of the connection.
    pub open spec fn apply(self, event: Event) -> Step {
        match event {
            Event::Packet { seg, payload } => self.on_packet(seg, payload),
            Event::Tick => self.on_tick(),
            Event::Close => self.close().stay(),
            Event::Write { buf } => self.queue(buf).stay(),
            Event::Read { room } => self.dequeue(room).stay(),
        }
    }
}

/// `t` holds what `s` held in `incoming`, and behind it at most the part
/// of the payload whose first byte has the sequence number `recv.nxt`; in
/// that case `recv.nxt` then stands behind the payload.
pub open spec fn delivered_in_order(
    s: ConnectionView,
    seg: SegmentHeader,
    payload: Seq<u8>,
    t: ConnectionView,
) -> bool {
    let k = ring_distance(seg.sequence_number, s.recv.nxt);
    t.incoming == s.incoming || (k < payload.len() && seg.sequence_number.wrapping_add(k as u32)
        == s.recv.nxt && t.incoming == s.incoming + payload.skip(k) && ring_distance(
        seg.sequence_number,
        t.recv.nxt,
    ) >= payload.len())
}

/// A segment that carries ACK and none of SYN, RST.
pub open spec fn plain_ack(seg: SegmentHeader) -> bool {
    seg.ack && !seg.syn && !seg.rst
}

/// The segment is an empty acknowledgment that advertises what is left of
/// the receive buffer and acknowledges all that `t` has received.
pub open spec fn is_ack_of(o: Outgoing, t: ConnectionView) -> bool {
    &&& o.header.ack
    &&& !o.header.syn
    &&& !o.header.rst
    &&& o.header.acknowledgment_number == t.recv.nxt
    &&& o.header.window_size == t.recv.wnd
    &&& o.payload.len() == 0
}

} // verus!
