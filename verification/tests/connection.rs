use crust::{parse_segment, Connection, NetError, SegmentHeader, State, SENDQUEUE_SIZE};

const PEER: [u8; 4] = [10, 0, 0, 2];
const LOCAL: [u8; 4] = [10, 0, 0, 1];

fn from_peer(seq: u32, ack: u32, win: u16) -> SegmentHeader {
    SegmentHeader {
        source: PEER,
        destination: LOCAL,
        source_port: 5000,
        destination_port: 80,
        sequence_number: seq,
        acknowledgment_number: ack,
        window_size: win,
        fin: false,
        syn: false,
        rst: false,
        psh: false,
        ack: false,
    }
}

fn syn(seq: u32, win: u16) -> SegmentHeader {
    SegmentHeader { syn: true, ..from_peer(seq, 0, win) }
}

fn ack(seq: u32, ack: u32, win: u16) -> SegmentHeader {
    SegmentHeader { ack: true, ..from_peer(seq, ack, win) }
}

fn fin(seq: u32, ack: u32, win: u16) -> SegmentHeader {
    SegmentHeader { ack: true, fin: true, ..from_peer(seq, ack, win) }
}

fn rst(seq: u32) -> SegmentHeader {
    SegmentHeader { rst: true, ..from_peer(seq, 0, 0) }
}

/// A connection in `Established` that sends from `iss + 1` and expects
/// `irs + 1`, with the peer's window `win`.
fn established(iss: u32, irs: u32, win: u16) -> Connection {
    let mut out = Vec::new();
    let mut c = Connection::accept_with_iss(&syn(irs, win), iss, &mut out).unwrap();
    c.on_packet(&ack(irs.wrapping_add(1), iss.wrapping_add(1), win), &[], &mut out);
    assert_eq!(c.state(), State::Established);
    assert_eq!(out.len(), 1);
    c
}

fn last(out: &[Vec<u8>]) -> (SegmentHeader, Vec<u8>) {
    let d = out.last().unwrap();
    let p = parse_segment(d).unwrap();
    (p.header, d[p.payload_offset..].to_vec())
}

fn flags(h: &SegmentHeader) -> (bool, bool, bool, bool, bool) {
    (h.syn, h.ack, h.fin, h.psh, h.rst)
}

fn in_order(c: &Connection) -> bool {
    let s = c.send_space();
    let inflight = s.nxt.wrapping_sub(s.una) as usize;
    inflight <= c.unacked_len() + 2 && c.unacked_len() <= SENDQUEUE_SIZE
}

#[test]
fn accept_answers_a_syn() {
    let mut out = Vec::new();
    let c = Connection::accept(&syn(100, 64240), &mut out).unwrap();
    assert_eq!(c.state(), State::SynRcv);
    assert!(!c.is_rcv_closed());
    assert_eq!(c.send_space().una, 0);
    assert_eq!(c.send_space().nxt, 1);
    assert_eq!(c.send_space().wnd, 64240);
    assert_eq!(c.recv_space().nxt, 101);
    assert_eq!(c.recv_space().wnd, 65535);
    assert_eq!(c.closed_at(), None);
    assert_eq!(c.incoming_len(), 0);
    assert_eq!(c.unacked_len(), 0);
    assert_eq!(out.len(), 1);
    let (h, payload) = last(&out);
    assert_eq!(flags(&h), (true, true, false, false, false));
    assert_eq!(h.source, LOCAL);
    assert_eq!(h.source_port, 80);
    assert_eq!(h.destination, PEER);
    assert_eq!(h.destination_port, 5000);
    assert_eq!(h.sequence_number, 0);
    assert_eq!(h.acknowledgment_number, 101);
    assert_eq!(h.window_size, 65535);
    assert!(payload.is_empty());
    assert!(in_order(&c));
}

#[test]
fn accept_ignores_what_is_no_syn() {
    let mut out = Vec::new();
    assert!(Connection::accept(&ack(100, 0, 1000), &mut out).is_none());
    assert!(Connection::accept(&fin(100, 0, 1000), &mut out).is_none());
    assert!(Connection::accept(&rst(100), &mut out).is_none());
    assert!(Connection::accept_with_iss(&from_peer(1, 2, 3), 77, &mut out).is_none());
    assert!(out.is_empty());
}

#[test]
fn accept_at_the_last_sequence_number() {
    let mut out = Vec::new();
    let c = Connection::accept_with_iss(&syn(0xffff_ffff, 10), 0xffff_ffff, &mut out).unwrap();
    assert_eq!(c.recv_space().nxt, 0);
    assert_eq!(c.send_space().una, 0xffff_ffff);
    assert_eq!(c.send_space().nxt, 0);
    let (h, _) = last(&out);
    assert_eq!(h.sequence_number, 0xffff_ffff);
    assert_eq!(h.acknowledgment_number, 0);
}

#[test]
fn scenario_wrap_around() {
    let mut c = established(0xffff_ffef, 100, 64240);
    assert_eq!(c.send_space().una, 0xffff_fff0);
    assert_eq!(c.send_space().nxt, 0xffff_fff0);
    let data: Vec<u8> = (0u8..32).collect();
    assert_eq!(c.queue(&data), Ok(32));
    let mut out = Vec::new();
    c.on_tick(&mut out);
    let (h, payload) = last(&out);
    assert_eq!(h.sequence_number, 0xffff_fff0);
    assert_eq!(payload, data);
    assert_eq!(c.send_space().nxt, 0x0000_0010);
    assert!(in_order(&c));

    c.on_packet(&ack(101, 0x0000_000c, 64240), &[], &mut out);
    assert_eq!(c.send_space().una, 0x0000_000c);
    assert_eq!(c.send_space().nxt, 0x0000_0010);
    assert_eq!(c.unacked_len(), 4);
    assert!(in_order(&c));

    // The four bytes that are left go out again at the new `una`.
    c.on_tick(&mut out);
    let (h, payload) = last(&out);
    assert_eq!(h.sequence_number, 0x0000_000c);
    assert_eq!(payload, &data[28..]);
    assert_eq!(c.send_space().nxt, 0x0000_0010);

    c.on_packet(&ack(101, 0x0000_0010, 64240), &[], &mut out);
    assert_eq!(c.send_space().una, 0x0000_0010);
    assert_eq!(c.unacked_len(), 0);
}

#[test]
fn write_512_bytes_across_the_wrap() {
    let mut c = established(0xffff_feff, 0xffff_fffe, 64240);
    assert_eq!(c.send_space().una, 0xffff_ff00);
    assert_eq!(c.recv_space().nxt, 0xffff_ffff);
    assert_eq!(c.queue(&[9u8; 512]), Ok(512));
    let mut out = Vec::new();
    c.on_tick(&mut out);
    assert_eq!(c.send_space().nxt, 0x0000_0100);
    // Data from the peer crosses the wrap on the receiving side.
    c.on_packet(&ack(0xffff_ffff, 0x0000_0100, 64240), b"abc", &mut out);
    assert_eq!(c.recv_space().nxt, 2);
    assert_eq!(c.incoming_len(), 3);
    assert_eq!(c.send_space().una, 0x0000_0100);
    assert_eq!(c.unacked_len(), 0);
    let (h, _) = last(&out);
    assert_eq!(h.sequence_number, 0x0000_0100);
    assert_eq!(h.acknowledgment_number, 2);
}

#[test]
fn acknowledgment_outside_the_flight_is_ignored() {
    let mut c = established(0, 100, 1000);
    assert_eq!(c.queue(b"abcd"), Ok(4));
    let mut out = Vec::new();
    c.on_tick(&mut out);
    assert_eq!(c.send_space().nxt, 5);
    // Beyond what was sent.
    c.on_packet(&ack(101, 6, 77), &[], &mut out);
    assert_eq!(c.send_space().una, 1);
    assert_eq!(c.send_space().wnd, 1000);
    assert_eq!(c.unacked_len(), 4);
    // Before what is unacknowledged.
    c.on_packet(&ack(101, 0, 77), &[], &mut out);
    assert_eq!(c.send_space().una, 1);
    assert_eq!(c.send_space().wnd, 1000);
    // At `una`: nothing leaves the queue, the window is recorded.
    c.on_packet(&ack(101, 1, 77), &[], &mut out);
    assert_eq!(c.send_space().una, 1);
    assert_eq!(c.send_space().wnd, 77);
    assert_eq!(c.unacked_len(), 4);
    // At `nxt`: all of the queue leaves.
    c.on_packet(&ack(101, 5, 78), &[], &mut out);
    assert_eq!(c.send_space().una, 5);
    assert_eq!(c.send_space().wnd, 78);
    assert_eq!(c.unacked_len(), 0);
    assert_eq!(out.len(), 1);
}

#[test]
fn syn_rcv_waits_for_the_acknowledgment_of_the_syn() {
    let mut out = Vec::new();
    let mut c = Connection::accept_with_iss(&syn(100, 500), 1000, &mut out).unwrap();
    // An acknowledgment of a number that was never sent.
    c.on_packet(&ack(101, 1002, 500), &[], &mut out);
    assert_eq!(c.state(), State::SynRcv);
    assert_eq!(c.send_space().una, 1000);
    c.on_packet(&ack(101, 999, 500), &[], &mut out);
    assert_eq!(c.state(), State::SynRcv);
    c.on_packet(&ack(101, 1001, 500), &[], &mut out);
    assert_eq!(c.state(), State::Established);
    assert_eq!(c.send_space().una, 1001);
    assert_eq!(out.len(), 1);
}

#[test]
fn repeated_syn_in_syn_rcv_moves_recv_nxt() {
    let mut out = Vec::new();
    let mut c = Connection::accept(&syn(100, 500), &mut out).unwrap();
    c.on_packet(&syn(101, 500), &[], &mut out);
    assert_eq!(c.state(), State::SynRcv);
    assert_eq!(c.recv_space().nxt, 102);
    // With payload it is dropped.
    c.on_packet(&syn(102, 500), b"xy", &mut out);
    assert_eq!(c.recv_space().nxt, 102);
    assert_eq!(c.incoming_len(), 0);
    assert_eq!(out.len(), 1);
}

#[test]
fn segment_without_ack_changes_nothing() {
    let mut c = established(0, 100, 1000);
    let mut out = Vec::new();
    let a = c.on_packet(&from_peer(101, 0, 5), b"data", &mut out);
    assert!(!a.read);
    assert_eq!(c.incoming_len(), 0);
    assert_eq!(c.recv_space().nxt, 101);
    assert_eq!(c.send_space().wnd, 1000);
    assert!(out.is_empty());
}

#[test]
fn syn_in_a_synchronized_state_closes() {
    let mut c = established(0, 100, 1000);
    let mut out = Vec::new();
    let a = c.on_packet(&syn(101, 1000), &[], &mut out);
    assert_eq!(c.state(), State::Closed);
    assert!(c.is_rcv_closed());
    assert!(a.read);
    assert!(!a.write);
    assert!(out.is_empty());
    assert_eq!(c.close(), Err(NetError::NotConnected));
}

#[test]
fn reset_closes_before_the_last_states() {
    let mut out = Vec::new();
    let mut c = Connection::accept(&syn(100, 500), &mut out).unwrap();
    c.on_packet(&rst(101), &[], &mut out);
    assert_eq!(c.state(), State::Closed);

    let mut c = established(0, 100, 1000);
    // Outside the window a reset is not taken.
    c.on_packet(&rst(90), &[], &mut out);
    assert_eq!(c.state(), State::Established);
    c.on_packet(&rst(101), &[], &mut out);
    assert_eq!(c.state(), State::Closed);

    // In LastAck a reset is ignored.
    let mut c = established(0, 100, 1000);
    c.on_packet(&fin(101, 1, 1000), &[], &mut out);
    assert_eq!(c.close(), Ok(()));
    assert_eq!(c.state(), State::LastAck);
    c.on_packet(&rst(102), &[], &mut out);
    assert_eq!(c.state(), State::LastAck);
}

#[test]
fn unacceptable_segment_is_answered_where_it_has_ack() {
    let mut c = established(0, 100, 1000);
    let mut out = Vec::new();
    // Behind the window.
    c.on_packet(&ack(101 + 65535, 1, 5), b"late", &mut out);
    assert_eq!(out.len(), 1);
    let (h, payload) = last(&out);
    assert_eq!(flags(&h), (false, true, false, false, false));
    assert_eq!(h.sequence_number, 1);
    assert_eq!(h.acknowledgment_number, 101);
    assert!(payload.is_empty());
    assert_eq!(c.incoming_len(), 0);
    assert_eq!(c.send_space().wnd, 1000);
    // Without ACK it is dropped in silence.
    c.on_packet(&from_peer(50, 0, 5), b"old", &mut out);
    assert_eq!(out.len(), 1);
}

#[test]
fn empty_segment_is_acceptable_inside_the_window_only() {
    let mut c = established(0, 100, 1000);
    let mut out = Vec::new();
    assert_eq!(c.recv_space().wnd, 65535);
    // First and last number of the window.
    c.on_packet(&ack(101, 1, 11), &[], &mut out);
    assert_eq!(c.send_space().wnd, 11);
    c.on_packet(&ack(101 + 65534, 1, 12), &[], &mut out);
    assert_eq!(c.send_space().wnd, 12);
    assert!(out.is_empty());
    // One before and one behind.
    c.on_packet(&ack(100, 1, 13), &[], &mut out);
    assert_eq!(c.send_space().wnd, 12);
    assert_eq!(out.len(), 1);
    c.on_packet(&ack(101 + 65535, 1, 14), &[], &mut out);
    assert_eq!(c.send_space().wnd, 12);
    assert_eq!(out.len(), 2);
}

#[test]
fn zero_window_takes_only_empty_segments_at_recv_nxt() {
    let mut c = established(0, 100, 1000);
    let mut out = Vec::new();
    let fill = vec![5u8; 65535];
    c.on_packet(&ack(101, 1, 1000), &fill, &mut out);
    assert_eq!(c.incoming_len(), 65535);
    assert_eq!(c.recv_space().wnd, 0);
    assert_eq!(c.recv_space().nxt, 101 + 65535);
    let (h, _) = last(&out);
    assert_eq!(h.window_size, 0);
    assert_eq!(h.acknowledgment_number, 101 + 65535);
    let nxt = c.recv_space().nxt;

    // Data at recv.nxt is refused and answered.
    c.on_packet(&ack(nxt, 1, 21), b"x", &mut out);
    assert_eq!(c.incoming_len(), 65535);
    assert_eq!(c.send_space().wnd, 1000);
    assert_eq!(out.len(), 2);
    // A FIN takes a sequence number: refused too.
    c.on_packet(&fin(nxt, 1, 22), &[], &mut out);
    assert_eq!(c.state(), State::Established);
    assert_eq!(out.len(), 3);
    // An empty segment beside recv.nxt is refused.
    c.on_packet(&ack(nxt.wrapping_add(1), 1, 23), &[], &mut out);
    assert_eq!(c.send_space().wnd, 1000);
    c.on_packet(&ack(nxt.wrapping_sub(1), 1, 24), &[], &mut out);
    assert_eq!(c.send_space().wnd, 1000);
    assert_eq!(out.len(), 5);
    // An empty segment at recv.nxt is taken.
    c.on_packet(&ack(nxt, 1, 25), &[], &mut out);
    assert_eq!(c.send_space().wnd, 25);
    assert_eq!(out.len(), 5);

    // Reading makes room; the next segment that goes out says so.
    let mut buf = [0u8; 100];
    assert_eq!(c.dequeue(&mut buf), Some(100));
    assert_eq!(buf, [5u8; 100]);
    assert_eq!(c.recv_space().wnd, 0);
    // The window advertised last is still zero: data is refused once
    // more, and the answer advertises the room.
    c.on_packet(&ack(nxt, 1, 26), b"y", &mut out);
    assert_eq!(c.incoming_len(), 65435);
    assert_eq!(c.send_space().wnd, 25);
    let (h, _) = last(&out);
    assert_eq!(h.window_size, 100);
    assert_eq!(c.recv_space().wnd, 100);
    c.on_packet(&ack(nxt, 1, 28), b"y", &mut out);
    assert_eq!(c.incoming_len(), 65436);
    assert_eq!(c.send_space().wnd, 28);
    let (h, _) = last(&out);
    assert_eq!(h.window_size, 99);
}

#[test]
fn segment_across_the_right_edge_of_the_window() {
    let mut c = established(0, 100, 1000);
    let mut out = Vec::new();
    c.on_packet(&ack(101, 1, 1000), &vec![1u8; 65530], &mut out);
    assert_eq!(c.recv_space().wnd, 5);
    let nxt = c.recv_space().nxt;
    // Wholly behind the edge: first and last byte outside.
    c.on_packet(&ack(nxt.wrapping_add(5), 1, 31), b"0123456789", &mut out);
    assert_eq!(c.incoming_len(), 65530);
    assert_eq!(c.send_space().wnd, 1000);
    // Last byte inside, first byte before the window: taken, and the
    // part from recv.nxt on is delivered.
    c.on_packet(&ack(nxt.wrapping_sub(8), 1, 32), b"0123456789", &mut out);
    assert_eq!(c.send_space().wnd, 32);
    assert_eq!(c.incoming_len(), 65532);
    assert_eq!(c.recv_space().nxt, nxt.wrapping_add(2));
    assert_eq!(c.recv_space().wnd, 3);
    // First byte inside, last byte behind the edge: taken whole.
    let nxt = c.recv_space().nxt;
    c.on_packet(&ack(nxt, 1, 33), b"0123456789", &mut out);
    assert_eq!(c.send_space().wnd, 33);
    assert_eq!(c.incoming_len(), 65542);
    assert_eq!(c.recv_space().wnd, 0);
    let (h, _) = last(&out);
    assert_eq!(h.window_size, 0);
    assert_eq!(h.acknowledgment_number, nxt.wrapping_add(10));
}

#[test]
fn overlapping_segment_delivers_only_what_is_new() {
    let mut c = established(0, 100, 1000);
    let mut out = Vec::new();
    let a = c.on_packet(&ack(101, 1, 1000), b"hello", &mut out);
    assert!(a.read);
    assert_eq!(c.recv_space().nxt, 106);
    // The same segment again: nothing is added, an ACK goes out.
    c.on_packet(&ack(101, 1, 1000), b"hello", &mut out);
    assert_eq!(c.incoming_len(), 5);
    assert_eq!(c.recv_space().nxt, 106);
    assert_eq!(out.len(), 2);
    assert_eq!(last(&out).0.acknowledgment_number, 106);
    // A segment that starts earlier and reaches further.
    c.on_packet(&ack(103, 1, 1000), b"llo, world", &mut out);
    assert_eq!(c.recv_space().nxt, 113);
    assert_eq!(out.len(), 3);
    assert_eq!(last(&out).0.acknowledgment_number, 113);
    // A segment that starts behind recv.nxt is dropped.
    c.on_packet(&ack(120, 1, 1000), b"future", &mut out);
    assert_eq!(c.recv_space().nxt, 113);
    assert_eq!(out.len(), 3);
    let mut buf = [0u8; 32];
    assert_eq!(c.dequeue(&mut buf), Some(12));
    assert_eq!(&buf[..12], b"hello, world");
    assert_eq!(c.dequeue(&mut buf), None);
}

#[test]
fn data_and_fin_in_one_segment() {
    let mut c = established(0, 100, 1000);
    let mut out = Vec::new();
    let a = c.on_packet(&fin(101, 1, 1000), b"bye", &mut out);
    assert!(a.read);
    assert_eq!(c.state(), State::CloseWait);
    assert_eq!(c.recv_space().nxt, 105);
    assert_eq!(out.len(), 2);
    let first = parse_segment(&out[0]).unwrap().header;
    assert_eq!(first.acknowledgment_number, 104);
    assert_eq!(first.window_size, 65532);
    let (h, _) = last(&out);
    assert_eq!(h.acknowledgment_number, 105);
    assert_eq!(flags(&h), (false, true, false, false, false));
    // In CloseWait further payload is ignored.
    c.on_packet(&ack(105, 1, 1000), b"more", &mut out);
    assert_eq!(c.incoming_len(), 3);
    assert_eq!(out.len(), 2);
}

#[test]
fn closed_reader_gets_nothing_more() {
    let mut c = established(0, 100, 1000);
    let mut out = Vec::new();
    assert_eq!(c.close(), Ok(()));
    c.on_packet(&ack(101, 1, 1000), b"a", &mut out);
    assert_eq!(c.send_space().nxt, 2);
    c.on_packet(&fin(102, 2, 1000), &[], &mut out);
    assert_eq!(c.state(), State::TimeWait);
    assert!(c.is_rcv_closed());
    assert_eq!(c.incoming_len(), 1);
    let sent = out.len();
    c.on_packet(&ack(103, 2, 1000), b"late", &mut out);
    c.on_packet(&fin(103, 2, 1000), b"late", &mut out);
    c.on_packet(&rst(103), &[], &mut out);
    c.on_tick(&mut out);
    assert_eq!(c.queue(b"zz"), Ok(2));
    c.on_tick(&mut out);
    assert_eq!(c.state(), State::TimeWait);
    assert_eq!(c.incoming_len(), 1);
    assert_eq!(c.close(), Err(NetError::NotConnected));
    // What was written behind the FIN goes out as empty segments.
    assert_eq!(out.len(), sent + 1);
    let (h, payload) = last(&out);
    assert_eq!(flags(&h), (false, true, false, true, false));
    assert!(payload.is_empty());
    let mut buf = [0u8; 4];
    assert_eq!(c.dequeue(&mut buf), Some(1));
    assert_eq!(c.dequeue(&mut buf), Some(0));
    c.on_packet(&syn(103, 1000), &[], &mut out);
    assert_eq!(c.state(), State::Closed);
    assert_eq!(c.dequeue(&mut buf), Some(0));
}

#[test]
fn tick_sends_what_the_peer_window_allows() {
    let mut c = established(0, 100, 3);
    let mut out = Vec::new();
    assert_eq!(c.queue(b"0123456789"), Ok(10));
    c.on_tick(&mut out);
    assert_eq!(out.len(), 1);
    let (h, payload) = last(&out);
    assert_eq!(flags(&h), (false, true, false, true, false));
    assert_eq!(h.sequence_number, 1);
    assert_eq!(payload, b"012");
    assert_eq!(c.send_space().nxt, 4);
    // Three numbers are in flight: the window leaves no room.
    c.on_tick(&mut out);
    assert_eq!(out.len(), 1);
    assert!(in_order(&c));
    // The peer acknowledges two bytes and opens the window to four.
    c.on_packet(&ack(101, 3, 4), &[], &mut out);
    assert_eq!(c.unacked_len(), 8);
    c.on_tick(&mut out);
    let (h, payload) = last(&out);
    assert_eq!(h.sequence_number, 3);
    assert_eq!(payload, b"234");
    assert_eq!(c.send_space().nxt, 6);
    // A closed window sends nothing.
    c.on_packet(&ack(101, 6, 0), &[], &mut out);
    assert_eq!(c.unacked_len(), 5);
    let sent = out.len();
    c.on_tick(&mut out);
    assert_eq!(out.len(), sent);
}

#[test]
fn tick_without_data_is_silent() {
    let mut c = established(0, 100, 1000);
    let mut out = Vec::new();
    c.on_tick(&mut out);
    assert!(out.is_empty());
    assert_eq!(c.state(), State::Established);
}

#[test]
fn close_records_the_place_of_the_fin() {
    let mut c = established(6, 100, 1000);
    assert_eq!(c.queue(b"abc"), Ok(3));
    assert_eq!(c.close(), Ok(()));
    assert_eq!(c.state(), State::FinWait1);
    assert_eq!(c.closed_at(), Some(10));
    // The FIN goes out with the data.
    let mut out = Vec::new();
    c.on_tick(&mut out);
    let (h, payload) = last(&out);
    assert_eq!(flags(&h), (false, true, true, true, false));
    assert_eq!(h.sequence_number, 7);
    assert_eq!(payload, b"abc");
    assert_eq!(c.send_space().nxt, 11);
    assert!(in_order(&c));
    // Every byte is acknowledged, the FIN not yet.
    c.on_packet(&ack(101, 10, 1000), &[], &mut out);
    assert_eq!(c.unacked_len(), 0);
    assert_eq!(c.send_space().una, 10);
    assert_eq!(c.send_space().nxt, 11);
    assert_eq!(c.state(), State::FinWait1);
    c.on_packet(&ack(101, 11, 1000), &[], &mut out);
    assert_eq!(c.state(), State::FinWait2);
    assert!(in_order(&c));
}

#[test]
fn close_in_syn_rcv() {
    let mut out = Vec::new();
    let mut c = Connection::accept(&syn(100, 500), &mut out).unwrap();
    assert_eq!(c.close(), Ok(()));
    assert_eq!(c.state(), State::FinWait1);
    assert_eq!(c.closed_at(), Some(0));
    assert_eq!(c.close(), Ok(()));
    assert_eq!(c.state(), State::FinWait1);
}

#[test]
fn queue_is_capped() {
    let mut c = established(0, 100, 2000);
    assert_eq!(c.queue(&[]), Ok(0));
    assert_eq!(c.queue(&[1u8; 2000]), Ok(1024));
    assert_eq!(c.unacked_len(), SENDQUEUE_SIZE);
    assert_eq!(c.queue(&[1u8; 1]), Err(NetError::WouldBlock));
    assert!(in_order(&c));
    // One tick sends all of it in one segment.
    let mut out = Vec::new();
    c.on_tick(&mut out);
    let (_, payload) = last(&out);
    assert_eq!(payload.len(), 1024);
    assert_eq!(out[0].len(), 1064);
    assert_eq!(c.send_space().nxt, 1025);
    // Acknowledged bytes make room again.
    c.on_packet(&ack(101, 25, 1000), &[], &mut out);
    assert_eq!(c.queue(&[2u8; 100]), Ok(24));
}
