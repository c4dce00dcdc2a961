use crust::available::{READ_BIT, WRITE_BIT};
use crust::{Available, ConnectionManager, NetError, Quad, SegmentHeader, State};

#[test]
fn available_flags() {
    let mut a = Available::empty();
    assert_eq!(a.bits(), 0);
    assert!(!a.contains(Available::read()));
    assert!(a.contains(Available::empty()));
    a.insert(Available::read());
    assert_eq!(a, Available::read());
    assert_eq!(a.bits(), READ_BIT);
    assert!(a.contains(Available::read()));
    assert!(!a.contains(Available::write()));
    a.insert(Available::write());
    assert_eq!(a.bits(), 3);
    assert_eq!(Available::write().bits(), WRITE_BIT);
    assert!(a.contains(Available::write()));
    assert!(a.contains(Available::read()));
}

#[test]
fn error_messages() {
    assert_eq!(NetError::AddrInUse.message(), "port already bound");
    assert_eq!(NetError::ConnectionAborted.message(), "stream was terminated unexpectedly");
    assert_eq!(NetError::WouldBlock.message(), "too many bytes buffered");
    assert_eq!(NetError::NotConnected.message(), "already closed");
}

#[test]
fn only_syn_rcv_is_not_synchronized() {
    assert!(!State::SynRcv.is_synchronized());
    for s in [
        State::Established,
        State::FinWait1,
        State::FinWait2,
        State::CloseWait,
        State::Closing,
        State::TimeWait,
        State::LastAck,
        State::Closed,
    ] {
        assert!(s.is_synchronized());
    }
}

#[test]
fn quad_key_packs_both_endpoints() {
    let q = Quad { src: ([192, 168, 0, 2], 40000), dst: ([192, 168, 0, 1], 8080) };
    assert_eq!(q.key(), 0xc0a8_0002_9c40_c0a8_0001_1f90);
    let swapped = Quad { src: q.dst, dst: q.src };
    assert_eq!(swapped.key(), 0xc0a8_0001_1f90_c0a8_0002_9c40);
    let zero = Quad { src: ([0; 4], 0), dst: ([0; 4], 0) };
    assert_eq!(zero.key(), 0);
    let top = Quad { src: ([255; 4], 65535), dst: ([255; 4], 65535) };
    assert_eq!(top.key(), (1u128 << 96) - 1);
}

#[test]
fn quad_of_segment_keeps_the_direction() {
    let seg = SegmentHeader {
        source: [1, 2, 3, 4],
        destination: [5, 6, 7, 8],
        source_port: 9,
        destination_port: 10,
        sequence_number: 0,
        acknowledgment_number: 0,
        window_size: 0,
        fin: false,
        syn: false,
        rst: false,
        psh: false,
        ack: false,
    };
    let q = Quad::of_segment(&seg);
    assert_eq!(q.src, ([1, 2, 3, 4], 9));
    assert_eq!(q.dst, ([5, 6, 7, 8], 10));
}

#[test]
fn quads_compare_by_their_endpoints() {
    let q = Quad { src: ([1, 2, 3, 4], 9), dst: ([5, 6, 7, 8], 10) };
    assert_eq!(q, Quad { src: ([1, 2, 3, 4], 9), dst: ([5, 6, 7, 8], 10) });
    assert_ne!(q, Quad { src: ([1, 2, 3, 4], 10), dst: ([5, 6, 7, 8], 9) });
    assert_ne!(q.key(), Quad { src: ([1, 2, 3, 4], 10), dst: ([5, 6, 7, 8], 9) }.key());
    assert_ne!(q, Quad { src: q.dst, dst: q.src });
}

#[test]
fn default_manager_is_empty() {
    let mut cm = ConnectionManager::default();
    assert!(!cm.is_terminated());
    let q = Quad { src: ([1, 2, 3, 4], 9), dst: ([5, 6, 7, 8], 10) };
    assert!(cm.get(&q).is_none());
    let mut out = Vec::new();
    cm.on_tick(&mut out);
    assert!(out.is_empty());
    assert!(cm.bind(1).is_ok());
}
