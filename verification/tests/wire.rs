use crust::wire::{MAX_DATAGRAM_PAYLOAD, MAX_SEGMENT_PAYLOAD, MTU};
use crust::{encode_segment, parse_segment, SegmentHeader};
use etherparse::{Ipv4Header, PacketBuilder, TcpHeader, TcpOptionElement};

fn header() -> SegmentHeader {
    SegmentHeader {
        source: [192, 168, 0, 1],
        destination: [192, 168, 0, 2],
        source_port: 8080,
        destination_port: 40000,
        sequence_number: 0x0102_0304,
        acknowledgment_number: 0xfffe_fdfc,
        window_size: 0xabcd,
        fin: false,
        syn: false,
        rst: false,
        psh: false,
        ack: false,
    }
}

/// The one's complement of the one's complement sum of 16-bit words.
fn internet_checksum(parts: &[&[u8]]) -> u16 {
    let mut bytes = Vec::new();
    for p in parts {
        bytes.extend_from_slice(p);
    }
    if bytes.len() % 2 == 1 {
        bytes.push(0);
    }
    let mut sum: u32 = 0;
    for pair in bytes.chunks(2) {
        sum += u32::from(pair[0]) << 8 | u32::from(pair[1]);
    }
    while sum >> 16 != 0 {
        sum = (sum & 0xffff) + (sum >> 16);
    }
    !(sum as u16)
}

#[test]
fn encoded_segment_has_the_stated_layout() {
    let mut h = header();
    h.syn = true;
    h.ack = true;
    let bytes = encode_segment(&h, b"abc");
    assert_eq!(bytes.len(), 43);
    let ip_sum = internet_checksum(&[&bytes[..10], &bytes[12..20]]);
    let pseudo = [192, 168, 0, 1, 192, 168, 0, 2, 0, 6, 0, 23];
    let tcp_sum = internet_checksum(&[&pseudo, &bytes[20..36], &bytes[38..]]);
    let mut expected = vec![
        0x45, 0x00, 0x00, 0x2b, 0x00, 0x00, 0x40, 0x00, 0x40, 0x06,
        (ip_sum >> 8) as u8, ip_sum as u8,
        192, 168, 0, 1, 192, 168, 0, 2,
        0x1f, 0x90, 0x9c, 0x40, 0x01, 0x02, 0x03, 0x04, 0xff, 0xfe, 0xfd, 0xfc,
        0x50, 0x12, 0xab, 0xcd,
        (tcp_sum >> 8) as u8, tcp_sum as u8,
        0x00, 0x00,
    ];
    expected.extend_from_slice(b"abc");
    assert_eq!(bytes, expected);
}

#[test]
fn encoded_checksums_are_correct() {
    for payload in [&b""[..], &b"x"[..], &b"hello world"[..], &[0xffu8; 1460][..]] {
        let mut h = header();
        h.ack = true;
        h.psh = true;
        let bytes = encode_segment(&h, payload);
        // Summed with its checksum in place, a correct header gives zero.
        assert_eq!(internet_checksum(&[&bytes[..20]]), 0);
        let tcp_len = (20 + payload.len()) as u16;
        let pseudo = [
            192, 168, 0, 1, 192, 168, 0, 2, 0, 6, (tcp_len >> 8) as u8, tcp_len as u8,
        ];
        assert_eq!(internet_checksum(&[&pseudo, &bytes[20..]]), 0);
        let (ip, rest) = Ipv4Header::from_slice(&bytes).unwrap();
        let (tcp, body) = TcpHeader::from_slice(rest).unwrap();
        assert_eq!(ip.header_checksum, ip.calc_header_checksum());
        assert_eq!(tcp.checksum, tcp.calc_checksum_ipv4(&ip, body).unwrap());
        assert_eq!(body, payload);
    }
}

#[test]
fn each_flag_has_its_bit() {
    let flags: [(fn(&mut SegmentHeader), u8); 5] = [
        (|h| h.fin = true, 1),
        (|h| h.syn = true, 2),
        (|h| h.rst = true, 4),
        (|h| h.psh = true, 8),
        (|h| h.ack = true, 16),
    ];
    assert_eq!(encode_segment(&header(), &[])[33], 0);
    for (set, bit) in flags {
        let mut h = header();
        set(&mut h);
        let bytes = encode_segment(&h, &[]);
        assert_eq!(bytes[32], 0x50);
        assert_eq!(bytes[33], bit);
        let back = parse_segment(&bytes).unwrap().header;
        assert_eq!(
            (back.fin, back.syn, back.rst, back.psh, back.ack),
            (h.fin, h.syn, h.rst, h.psh, h.ack)
        );
    }
}

#[test]
fn encoded_segment_reads_back() {
    let mut h = header();
    h.fin = true;
    h.ack = true;
    let bytes = encode_segment(&h, b"payload");
    let parsed = parse_segment(&bytes).unwrap();
    assert_eq!(parsed.payload_offset, 40);
    assert_eq!(&bytes[parsed.payload_offset..], b"payload");
    let back = parsed.header;
    assert_eq!(back.source, h.source);
    assert_eq!(back.destination, h.destination);
    assert_eq!(back.source_port, h.source_port);
    assert_eq!(back.destination_port, h.destination_port);
    assert_eq!(back.sequence_number, h.sequence_number);
    assert_eq!(back.acknowledgment_number, h.acknowledgment_number);
    assert_eq!(back.window_size, h.window_size);
    assert_eq!((back.fin, back.syn, back.rst, back.psh, back.ack), (true, false, false, false, true));
}

#[test]
fn largest_payload_is_encoded() {
    let payload = vec![1u8; MAX_DATAGRAM_PAYLOAD];
    let bytes = encode_segment(&header(), &payload);
    assert_eq!(bytes.len(), 65535);
    assert_eq!(&bytes[2..4], &[0xff, 0xff]);
    assert_eq!(MAX_SEGMENT_PAYLOAD + 40, MTU);
}

#[test]
fn parse_reads_what_etherparse_wrote() {
    let mut datagram = Vec::new();
    PacketBuilder::ipv4([10, 0, 0, 7], [10, 0, 0, 9], 17)
        .tcp(1234, 80, 0xdead_beef, 4096)
        .ack(0x0bad_cafe)
        .psh()
        .write(&mut datagram, b"data")
        .unwrap();
    let parsed = parse_segment(&datagram).unwrap();
    let h = parsed.header;
    assert_eq!(h.source, [10, 0, 0, 7]);
    assert_eq!(h.destination, [10, 0, 0, 9]);
    assert_eq!(h.source_port, 1234);
    assert_eq!(h.destination_port, 80);
    assert_eq!(h.sequence_number, 0xdead_beef);
    assert_eq!(h.acknowledgment_number, 0x0bad_cafe);
    assert_eq!(h.window_size, 4096);
    assert_eq!((h.fin, h.syn, h.rst, h.psh, h.ack), (false, false, false, true, true));
    assert_eq!(parsed.payload_offset, 40);
    assert_eq!(&datagram[parsed.payload_offset..], b"data");
}

#[test]
fn parse_skips_options() {
    let mut datagram = Vec::new();
    PacketBuilder::ipv4([10, 0, 0, 7], [10, 0, 0, 9], 17)
        .tcp(1234, 80, 1, 4096)
        .syn()
        .options(&[TcpOptionElement::MaximumSegmentSize(1400)])
        .unwrap()
        .write(&mut datagram, b"zz")
        .unwrap();
    let parsed = parse_segment(&datagram).unwrap();
    assert_eq!(parsed.payload_offset, 44);
    assert_eq!(&datagram[44..], b"zz");
    assert!(parsed.header.syn);

    // An IPv4 header with one word of options.
    let mut with_ip_options = vec![0x46, 0, 0, 46, 0, 0, 0x40, 0, 64, 6, 0, 0, 1, 2, 3, 4, 5, 6, 7, 8];
    with_ip_options.extend_from_slice(&[1, 1, 1, 1]);
    with_ip_options.extend_from_slice(&datagram[20..40]);
    with_ip_options[24 + 12] = 0x50;
    with_ip_options.extend_from_slice(b"zz");
    let parsed = parse_segment(&with_ip_options).unwrap();
    assert_eq!(parsed.payload_offset, 44);
    assert_eq!(parsed.header.source, [1, 2, 3, 4]);
    assert_eq!(parsed.header.destination, [5, 6, 7, 8]);
    assert_eq!(parsed.header.source_port, 1234);
}

#[test]
fn parse_refuses_what_is_no_segment() {
    let good = encode_segment(&header(), b"abc");
    assert!(parse_segment(&good).is_some());
    assert!(parse_segment(&[]).is_none());
    assert!(parse_segment(&good[..19]).is_none());
    assert!(parse_segment(&good[..20]).is_none());
    assert!(parse_segment(&good[..39]).is_none());
    assert!(parse_segment(&good[..40]).is_some());

    let mut version = good.clone();
    version[0] = 0x55;
    assert!(parse_segment(&version).is_none());
    let mut short_ihl = good.clone();
    short_ihl[0] = 0x44;
    assert!(parse_segment(&short_ihl).is_none());
    let mut long_ihl = good.clone();
    long_ihl[0] = 0x4f;
    assert!(parse_segment(&long_ihl).is_none());
    let mut udp = good.clone();
    udp[9] = 17;
    assert!(parse_segment(&udp).is_none());
    let mut short_offset = good.clone();
    short_offset[32] = 0x40;
    assert!(parse_segment(&short_offset).is_none());
    let mut long_offset = good.clone();
    long_offset[32] = 0x60;
    assert!(parse_segment(&long_offset).is_none());
    let mut long_offset_fits = good.clone();
    long_offset_fits.push(0);
    long_offset_fits[32] = 0x60;
    assert_eq!(parse_segment(&long_offset_fits).unwrap().payload_offset, 44);
}
