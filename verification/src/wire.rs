//! The wire format of a TCP segment carried in an IPv4 datagram.
//!
//! Headers are read and written by `etherparse`. This module states, over
//! plain bytes, which datagrams are taken for TCP segments and which bytes
//! an outbound segment is made of; the two checksums are the ones that
//! `etherparse` computes.

use etherparse::{IpNumber, Ipv4Header, Ipv4HeaderSlice, TcpHeader, TcpHeaderSlice};
use vstd::prelude::*;
use vstd::slice::slice_subrange;

verus! {

/// Size of the largest datagram that is sent.
pub const MTU: usize = 1500;

/// Length of an IPv4 header without options.
pub const IPV4_HEADER_LEN: usize = 20;

/// Length of a TCP header without options.
pub const TCP_HEADER_LEN: usize = 20;

/// Most payload bytes that one outbound segment carries.
pub const MAX_SEGMENT_PAYLOAD: usize = MTU - IPV4_HEADER_LEN - TCP_HEADER_LEN;

/// Most payload bytes that fit behind a TCP header in one IPv4 datagram.
pub const MAX_DATAGRAM_PAYLOAD: usize = 65495;

/// Time to live of every datagram that is sent.
pub const TIME_TO_LIVE: u8 = 64;

/// The IP protocol number of TCP.
pub const PROTOCOL_TCP: u8 = 6;

/// The addresses of a datagram and the fields of the TCP header in it that
/// the state machine reads or sets.
#[derive(Clone, Copy, Debug, PartialEq, Eq)]
pub struct SegmentHeader {
    pub source: [u8; 4],
    pub destination: [u8; 4],
    pub source_port: u16,
    pub destination_port: u16,
    pub sequence_number: u32,
    pub acknowledgment_number: u32,
    pub window_size: u16,
    pub fin: bool,
    pub syn: bool,
    pub rst: bool,
    pub psh: bool,
    pub ack: bool,
}

/// What is read from the IPv4 header of an inbound datagram.
#[derive(Clone, Copy, Debug)]
pub struct Ipv4Fields {
    pub header_len: usize,
    pub protocol: u8,
    pub source: [u8; 4],
    pub destination: [u8; 4],
}

/// What is read from the TCP header of an inbound segment.
#[derive(Clone, Copy, Debug)]
pub struct TcpFields {
    pub header_len: usize,
    pub source_port: u16,
    pub destination_port: u16,
    pub sequence_number: u32,
    pub acknowledgment_number: u32,
    pub window_size: u16,
    pub fin: bool,
    pub syn: bool,
    pub rst: bool,
    pub psh: bool,
    pub ack: bool,
}

/// An inbound datagram that holds a TCP segment: its header, and where in
/// the datagram the payload starts.
#[derive(Clone, Copy, Debug, PartialEq, Eq)]
pub struct ParsedSegment {
    pub header: SegmentHeader,
    pub payload_offset: usize,
}

/// The 16-bit number whose big-endian octets are `hi`, `lo`.
pub open spec fn be16(hi: u8, lo: u8) -> u16 {
    (hi * 256 + lo) as u16
}

/// The 32-bit number whose big-endian octets are `b0` to `b3`.
pub open spec fn be32(b0: u8, b1: u8, b2: u8, b3: u8) -> u32 {
    (((b0 * 256 + b1) * 256 + b2) * 256 + b3) as u32
}

/// The big-endian octets of a 16-bit number.
pub open spec fn octets16(x: u16) -> Seq<u8> {
    seq![(x / 256) as u8, (x % 256) as u8]
}

/// The big-endian octets of a 32-bit number.
pub open spec fn octets32(x: u32) -> Seq<u8> {
    seq![
        (x / 0x100_0000) as u8,
        (x / 0x1_0000 % 256) as u8,
        (x / 0x100 % 256) as u8,
        (x % 256) as u8,
    ]
}

/// Header length in bytes that the first octet of an IPv4 header announces.
pub open spec fn ipv4_header_len(b: Seq<u8>) -> int {
    (b[0] % 16) * 4
}

/// The bytes start with an IPv4 header: version 4, a header length of at
/// least 20 bytes, and all of the header present.
pub open spec fn ipv4_header_valid(b: Seq<u8>) -> bool {
    &&& b.len() >= 20
    &&& b[0] / 16 == 4
    &&& b[0] % 16 >= 5
    &&& b.len() >= ipv4_header_len(b)
}

/// The fields of the IPv4 header that `b` starts with.
pub open spec fn ipv4_fields(b: Seq<u8>) -> Ipv4Fields {
    Ipv4Fields {
        header_len: ipv4_header_len(b) as usize,
        protocol: b[9],
        source: [b[12], b[13], b[14], b[15]],
        destination: [b[16], b[17], b[18], b[19]],
    }
}

/// Header length in bytes that the data offset of a TCP header announces.
pub open spec fn tcp_header_len(b: Seq<u8>) -> int {
    (b[12] / 16) * 4
}

/// The bytes start with a TCP header: a data offset of at least 5 words,
/// and all of the header present.
pub open spec fn tcp_header_valid(b: Seq<u8>) -> bool {
    &&& b.len() >= 20
    &&& b[12] / 16 >= 5
    &&& b.len() >= tcp_header_len(b)
}

/// The fields of the TCP header that `b` starts with.
pub open spec fn tcp_fields(b: Seq<u8>) -> TcpFields {
    TcpFields {
        header_len: tcp_header_len(b) as usize,
        source_port: be16(b[0], b[1]),
        destination_port: be16(b[2], b[3]),
        sequence_number: be32(b[4], b[5], b[6], b[7]),
        acknowledgment_number: be32(b[8], b[9], b[10], b[11]),
        window_size: be16(b[14], b[15]),
        fin: b[13] % 2 == 1,
        syn: b[13] / 2 % 2 == 1,
        rst: b[13] / 4 % 2 == 1,
        psh: b[13] / 8 % 2 == 1,
        ack: b[13] / 16 % 2 == 1,
    }
}

/// The datagram holds a TCP segment.
pub open spec fn segment_valid(b: Seq<u8>) -> bool {
    &&& ipv4_header_valid(b)
    &&& b[9] == PROTOCOL_TCP
    &&& tcp_header_valid(b.skip(ipv4_header_len(b)))
}

/// Where the payload starts in a datagram that holds a TCP segment.
pub open spec fn payload_offset(b: Seq<u8>) -> int {
    ipv4_header_len(b) + tcp_header_len(b.skip(ipv4_header_len(b)))
}

/// The header of the TCP segment that a datagram holds.
pub open spec fn segment_header(b: Seq<u8>) -> SegmentHeader {
    let ip = ipv4_fields(b);
    let tcp = tcp_fields(b.skip(ipv4_header_len(b)));
    SegmentHeader {
        source: ip.source,
        destination: ip.destination,
        source_port: tcp.source_port,
        destination_port: tcp.destination_port,
        sequence_number: tcp.sequence_number,
        acknowledgment_number: tcp.acknowledgment_number,
        window_size: tcp.window_size,
        fin: tcp.fin,
        syn: tcp.syn,
        rst: tcp.rst,
        psh: tcp.psh,
        ack: tcp.ack,
    }
}

/// The payload of the TCP segment that a datagram holds: all that follows
/// the two headers.
pub open spec fn segment_payload(b: Seq<u8>) -> Seq<u8> {
    b.skip(payload_offset(b))
}

/// The header checksum that `Ipv4Header::calc_header_checksum` computes for
/// a header without options that has these fields and the defaults of
/// `Ipv4Header::new` elsewhere.
pub uninterp spec fn ipv4_header_checksum(
    payload_len: u16,
    time_to_live: u8,
    protocol: u8,
    source: Seq<u8>,
    destination: Seq<u8>,
) -> u16;

/// The checksum that `TcpHeader::calc_checksum_ipv4_raw` computes for a
/// TCP header without options that has these fields, a zero urgent
/// pointer, the given addresses in the pseudo-header, and the given
/// payload.
pub uninterp spec fn tcp_checksum_ipv4(
    source: Seq<u8>,
    destination: Seq<u8>,
    source_port: u16,
    destination_port: u16,
    sequence_number: u32,
    acknowledgment_number: u32,
    window_size: u16,
    fin: bool,
    syn: bool,
    rst: bool,
    psh: bool,
    ack: bool,
    payload: Seq<u8>,
) -> u16;

/// The 20 octets of an IPv4 header without options: version 4 and header
/// length 5, no service bits, the total length, identification 0, "don't
/// fragment" set and fragment offset 0, then time to live, protocol,
/// checksum and the two addresses.
pub open spec fn ipv4_header_layout(
    payload_len: u16,
    time_to_live: u8,
    protocol: u8,
    source: Seq<u8>,
    destination: Seq<u8>,
    checksum: u16,
) -> Seq<u8> {
    seq![0x45u8, 0u8] + octets16((payload_len + 20) as u16) + seq![0u8, 0u8, 0x40u8, 0u8]
        + seq![time_to_live, protocol] + octets16(checksum) + source + destination
}

/// The octet of a TCP header that holds the flags FIN, SYN, RST, PSH, ACK.
pub open spec fn flags_octet(h: SegmentHeader) -> u8 {
    ((if h.fin { 1int } else { 0int }) + (if h.syn { 2int } else { 0int })
        + (if h.rst { 4int } else { 0int }) + (if h.psh { 8int } else { 0int })
        + (if h.ack { 16int } else { 0int })) as u8
}

/// The 20 octets of a TCP header without options: ports, sequence and
/// acknowledgment number, data offset 5, flags, window, checksum, and a
/// zero urgent pointer.
pub open spec fn tcp_header_layout(h: SegmentHeader, checksum: u16) -> Seq<u8> {
    octets16(h.source_port) + octets16(h.destination_port) + octets32(h.sequence_number)
        + octets32(h.acknowledgment_number) + seq![0x50u8, flags_octet(h)] + octets16(
        h.window_size,
    ) + octets16(checksum) + seq![0u8, 0u8]
}

/// The TCP checksum of a segment.
pub open spec fn segment_checksum(h: SegmentHeader, payload: Seq<u8>) -> u16 {
    tcp_checksum_ipv4(
        h.source@,
        h.destination@,
        h.source_port,
        h.destination_port,
        h.sequence_number,
        h.acknowledgment_number,
        h.window_size,
        h.fin,
        h.syn,
        h.rst,
        h.psh,
        h.ack,
        payload,
    )
}

/// The datagram that carries a segment: IPv4 header, TCP header with the
/// segment's checksum, payload.
pub open spec fn segment_wire(h: SegmentHeader, payload: Seq<u8>) -> Seq<u8>
    recommends
        payload.len() <= MAX_DATAGRAM_PAYLOAD,
{
    let tcp_len = (TCP_HEADER_LEN + payload.len()) as u16;
    ipv4_header_layout(
        tcp_len,
        TIME_TO_LIVE,
        PROTOCOL_TCP,
        h.source@,
        h.destination@,
        ipv4_header_checksum(tcp_len, TIME_TO_LIVE, PROTOCOL_TCP, h.source@, h.destination@),
    ) + tcp_header_layout(h, segment_checksum(h, payload)) + payload
}

/// Every datagram carries its checksums: the header checksum of its IPv4
/// header stands in octets 10 and 11, and the TCP checksum over the
/// pseudo-header, the TCP header and the payload in octets 36 and 37.
pub proof fn law_checksums_in_place(h: SegmentHeader, payload: Seq<u8>)
    requires
        payload.len() <= MAX_DATAGRAM_PAYLOAD,
    ensures
        segment_wire(h, payload).len() == IPV4_HEADER_LEN + TCP_HEADER_LEN + payload.len(),
        segment_wire(h, payload).subrange(10, 12) == octets16(
            ipv4_header_checksum(
                (TCP_HEADER_LEN + payload.len()) as u16,
                TIME_TO_LIVE,
                PROTOCOL_TCP,
                h.source@,
                h.destination@,
            ),
        ),
        segment_wire(h, payload).subrange(36, 38) == octets16(segment_checksum(h, payload)),
{
    let w = segment_wire(h, payload);
    assert(h.source@.len() == 4 && h.destination@.len() == 4);
    assert(w.subrange(10, 12) =~= octets16(
        ipv4_header_checksum(
            (TCP_HEADER_LEN + payload.len()) as u16,
            TIME_TO_LIVE,
            PROTOCOL_TCP,
            h.source@,
            h.destination@,
        ),
    ));
    assert(w.subrange(36, 38) =~= octets16(segment_checksum(h, payload)));
}

/// Octets and numbers: the big-endian octets of a number give the number
/// back.
pub(crate) proof fn lemma_octets(x: u16, y: u32)
    ensures
        be16(octets16(x)[0], octets16(x)[1]) == x,
        be32(octets32(y)[0], octets32(y)[1], octets32(y)[2], octets32(y)[3]) == y,
{
}

/// What is sent reads back: the datagram of a segment holds a TCP segment
/// with the same header and the same payload.
pub proof fn law_wire_round_trip(h: SegmentHeader, payload: Seq<u8>)
    requires
        payload.len() <= MAX_DATAGRAM_PAYLOAD,
    ensures
        segment_valid(segment_wire(h, payload)),
        segment_header(segment_wire(h, payload)) == h,
        segment_payload(segment_wire(h, payload)) == payload,
        payload_offset(segment_wire(h, payload)) == IPV4_HEADER_LEN + TCP_HEADER_LEN,
{
    let w = segment_wire(h, payload);
    let tcp_len = (TCP_HEADER_LEN + payload.len()) as u16;
    let ip = ipv4_header_layout(
        tcp_len,
        TIME_TO_LIVE,
        PROTOCOL_TCP,
        h.source@,
        h.destination@,
        ipv4_header_checksum(tcp_len, TIME_TO_LIVE, PROTOCOL_TCP, h.source@, h.destination@),
    );
    let tcp = tcp_header_layout(h, segment_checksum(h, payload));
    assert(h.source@.len() == 4 && h.destination@.len() == 4);
    assert(ip.len() == 20 && tcp.len() == 20);
    assert(w[0] == 0x45u8 && w[9] == PROTOCOL_TCP);
    assert(ipv4_header_len(w) == 20);
    let t = w.skip(20);
    assert(t =~= tcp + payload);
    assert(t[12] == 0x50u8);
    assert(tcp_header_len(t) == 20);
    assert(w.skip(40) =~= payload);
    lemma_octets(h.source_port, h.sequence_number);
    lemma_octets(h.destination_port, h.acknowledgment_number);
    lemma_octets(h.window_size, 0);
    let back = segment_header(w);
    assert(back.source =~= h.source);
    assert(back.destination =~= h.destination);
    assert(back.source_port == h.source_port);
    assert(back.destination_port == h.destination_port);
    assert(back.sequence_number == h.sequence_number);
    assert(back.acknowledgment_number == h.acknowledgment_number);
    assert(back.window_size == h.window_size);
    assert(t[13] == flags_octet(h));
    assert(back.fin == h.fin && back.syn == h.syn && back.rst == h.rst && back.psh == h.psh
        && back.ack == h.ack);
}

/// Calls `Ipv4HeaderSlice::from_slice` and reads header length, protocol
/// and addresses from the slice it returns. The call fails where fewer
/// than 20 bytes are given, the version is not 4, the header length field
/// is under 5 or the bytes end before the header does; the getters read
/// octet 9 and octets 12 to 19.
#[verifier::external_body]
fn parse_ipv4_header(buf: &[u8]) -> (r: Option<Ipv4Fields>)
    ensures
        r == if ipv4_header_valid(buf@) {
            Some(ipv4_fields(buf@))
        } else {
            None
        },
{
    match Ipv4HeaderSlice::from_slice(buf) {
        Ok(h) => Some(
            Ipv4Fields {
                header_len: h.slice().len(),
                protocol: h.protocol().0,
                source: h.source(),
                destination: h.destination(),
            },
        ),
        Err(_) => None,
    }
}

/// Calls `TcpHeaderSlice::from_slice` and reads the fields from the slice
/// it returns. The call fails where fewer than 20 bytes are given, the data
/// offset is under 5 or the bytes end before the header does; the getters
/// read big-endian numbers and the bits of octet 13.
#[verifier::external_body]
fn parse_tcp_header(buf: &[u8]) -> (r: Option<TcpFields>)
    ensures
        r == if tcp_header_valid(buf@) {
            Some(tcp_fields(buf@))
        } else {
            None
        },
{
    let h = match TcpHeaderSlice::from_slice(buf) {
        Ok(h) => h,
        Err(_) => return None,
    };
    let (source_port, destination_port) = (h.source_port(), h.destination_port());
    let (sequence_number, acknowledgment_number) = (h.sequence_number(), h.acknowledgment_number());
    let (header_len, window_size) = (h.slice().len(), h.window_size());
    let (fin, syn, rst, psh, ack) = (h.fin(), h.syn(), h.rst(), h.psh(), h.ack());
    Some(TcpFields { header_len, source_port, destination_port, sequence_number, acknowledgment_number, window_size, fin, syn, rst, psh, ack })
}

/// Builds a header with `Ipv4Header::new` and serialises it with
/// `Ipv4Header::write`, which computes the header checksum itself. `new`
/// fails above 65515 payload bytes; writing into a vector does not fail.
#[verifier::external_body]
fn ipv4_header_bytes(
    payload_len: u16,
    time_to_live: u8,
    protocol: u8,
    source: [u8; 4],
    destination: [u8; 4],
) -> (bytes: Vec<u8>)
    requires
        payload_len <= 65515,
    ensures
        bytes@ == ipv4_header_layout(
            payload_len,
            time_to_live,
            protocol,
            source@,
            destination@,
            ipv4_header_checksum(payload_len, time_to_live, protocol, source@, destination@),
        ),
{
    let header =
        Ipv4Header::new(payload_len, time_to_live, IpNumber(protocol), source, destination).unwrap();
    let mut bytes = Vec::new();
    header.write(&mut bytes).unwrap();
    bytes
}

/// Calls `TcpHeader::calc_checksum_ipv4_raw` on a header made with
/// `TcpHeader::new` that has the fields of `h`. It is the function to which
/// `calc_checksum_ipv4` hands the two addresses of its IPv4 header. It
/// fails above 65515 payload bytes.
#[verifier::external_body]
fn tcp_checksum(h: &SegmentHeader, payload: &[u8]) -> (sum: u16)
    requires
        payload@.len() <= 65515,
    ensures
        sum == tcp_checksum_ipv4(
            h.source@,
            h.destination@,
            h.source_port,
            h.destination_port,
            h.sequence_number,
            h.acknowledgment_number,
            h.window_size,
            h.fin,
            h.syn,
            h.rst,
            h.psh,
            h.ack,
            payload@,
        ),
{
    let mut tcp =
        TcpHeader::new(h.source_port, h.destination_port, h.sequence_number, h.window_size);
    tcp.acknowledgment_number = h.acknowledgment_number;
    tcp.fin = h.fin;
    tcp.syn = h.syn;
    tcp.rst = h.rst;
    tcp.psh = h.psh;
    tcp.ack = h.ack;
    tcp.calc_checksum_ipv4_raw(h.source, h.destination, payload).unwrap()
}

/// Serialises with `TcpHeader::write` a header made with `TcpHeader::new`
/// that has the fields of `h` and the given checksum.
#[verifier::external_body]
fn tcp_header_bytes(h: &SegmentHeader, checksum: u16) -> (bytes: Vec<u8>)
    ensures
        bytes@ == tcp_header_layout(*h, checksum),
{
    let mut tcp =
        TcpHeader::new(h.source_port, h.destination_port, h.sequence_number, h.window_size);
    tcp.acknowledgment_number = h.acknowledgment_number;
    tcp.fin = h.fin;
    tcp.syn = h.syn;
    tcp.rst = h.rst;
    tcp.psh = h.psh;
    tcp.ack = h.ack;
    tcp.checksum = checksum;
    let mut bytes = Vec::new();
    tcp.write(&mut bytes).unwrap();
    bytes
}

/// Reads an inbound datagram. A datagram that is not IPv4, does not carry
/// TCP or is cut short yields `None`.
pub fn parse_segment(buf: &[u8]) -> (r: Option<ParsedSegment>)
    ensures
        r.is_some() == segment_valid(buf@),
        r matches Some(p) ==> p.header == segment_header(buf@) && p.payload_offset
            == payload_offset(buf@) && p.payload_offset <= buf@.len(),
{
    let ip = match parse_ipv4_header(buf) {
        Some(ip) => ip,
        None => { return None; },
    };
    if ip.protocol != PROTOCOL_TCP {
        return None;
    }
    let rest = slice_subrange(buf, ip.header_len, buf.len());
    assert(rest@ == buf@.skip(ip.header_len as int));
    let tcp = match parse_tcp_header(rest) {
        Some(tcp) => tcp,
        None => { return None; },
    };
    Some(
        ParsedSegment {
            header: SegmentHeader {
                source: ip.source,
                destination: ip.destination,
                source_port: tcp.source_port,
                destination_port: tcp.destination_port,
                sequence_number: tcp.sequence_number,
                acknowledgment_number: tcp.acknowledgment_number,
                window_size: tcp.window_size,
                fin: tcp.fin,
                syn: tcp.syn,
                rst: tcp.rst,
                psh: tcp.psh,
                ack: tcp.ack,
            },
            payload_offset: ip.header_len + tcp.header_len,
        },
    )
}

/// Serialises an outbound segment into one datagram.
pub fn encode_segment(h: &SegmentHeader, payload: &[u8]) -> (bytes: Vec<u8>)
    requires
        payload@.len() <= MAX_DATAGRAM_PAYLOAD,
    ensures
        bytes@ == segment_wire(*h, payload@),
        bytes@.len() == IPV4_HEADER_LEN + TCP_HEADER_LEN + payload@.len(),
{
    let tcp_len: u16 = (TCP_HEADER_LEN + payload.len()) as u16;
    let mut bytes = ipv4_header_bytes(tcp_len, TIME_TO_LIVE, PROTOCOL_TCP, h.source, h.destination);
    let checksum = tcp_checksum(h, payload);
    let tcp = tcp_header_bytes(h, checksum);
    bytes.extend_from_slice(tcp.as_slice());
    bytes.extend_from_slice(payload);
    bytes
}

} // verus!
