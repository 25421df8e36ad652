use std::str::FromStr;
use tcpstack::addr::{IpAddress, Ipv4Address, Ipv6Address};
use tcpstack::ethernet::{EtherType, EthernetFrame, EthernetHeader, MacAddress};
use tcpstack::ip::{IpPacket, IpProtocol, Ipv4Header, Ipv6Header};
use tcpstack::packet::{internet_checksum, Packet, PacketBuilder};
use tcpstack::tcp::{TcpFlags, TcpHeader, TcpSegment};
use tcpstack::utils::ip_to_bytes;
use tcpstack::NetError;

fn mac(b: [u8; 6]) -> MacAddress {
    MacAddress::new(b)
}

#[test]
fn ether_type_numbers_round_trip() {
    assert_eq!(EtherType::from(0x0800_u16), EtherType::Ipv4);
    assert_eq!(EtherType::from(0x86dd_u16), EtherType::Ipv6);
    assert_eq!(EtherType::from(0x0806_u16), EtherType::Arp);
    assert_eq!(EtherType::from(0x1234_u16), EtherType::Unknown(0x1234));
    for t in [EtherType::Ipv4, EtherType::Ipv6, EtherType::Arp, EtherType::Unknown(7)] {
        assert_eq!(EtherType::from(u16::from(t)), t);
    }
    // a non-canonical value does not come back as itself
    assert_eq!(EtherType::from(u16::from(EtherType::Unknown(0x0800))), EtherType::Ipv4);
}

#[test]
fn mac_address_classification() {
    assert!(MacAddress::broadcast().is_broadcast());
    assert!(MacAddress::broadcast().is_multicast());
    assert!(!MacAddress::broadcast().is_unicast());
    assert!(MacAddress::zero().is_unicast());
    assert!(mac([0x01, 0, 0x5e, 0, 0, 1]).is_multicast());
    assert!(mac([0x02, 0, 0, 0, 0, 1]).is_unicast());
    assert_eq!(mac([1, 2, 3, 4, 5, 6]).as_bytes(), &[1, 2, 3, 4, 5, 6]);
    assert!(mac([1, 2, 3, 4, 5, 6]) == MacAddress::new([1, 2, 3, 4, 5, 6]));
    assert!(mac([1, 2, 3, 4, 5, 6]) != MacAddress::zero());
}

#[test]
fn mac_address_from_bytes_needs_six() {
    assert!(MacAddress::from_bytes(&[1, 2, 3, 4, 5, 6]).unwrap() == mac([1, 2, 3, 4, 5, 6]));
    match MacAddress::from_bytes(&[1, 2, 3]) {
        Err(NetError::PacketParse(m)) => assert_eq!(m, "invalid MAC address length"),
        _ => panic!("expected a parse error"),
    }
}

#[test]
fn mac_address_display_repeats_first_byte() {
    assert_eq!(mac([0xab, 1, 2, 3, 4, 5]).to_display_string(), "ab:ab:ab:ab:ab:ab");
}

#[test]
fn mac_address_from_str() {
    let m = MacAddress::from_str("00:1a:2B:3c:4d:ff").unwrap();
    assert!(m == mac([0x00, 0x1a, 0x2b, 0x3c, 0x4d, 0xff]));
    // from_str_radix accepts a leading plus and a single digit
    let m = MacAddress::from_str("+f:1:02:03:04:05").unwrap();
    assert!(m == mac([0x0f, 0x01, 0x02, 0x03, 0x04, 0x05]));
    match MacAddress::from_str("00:11:22:33:44") {
        Err(NetError::PacketParse(m)) => assert_eq!(m, "Invalid MAC address format"),
        _ => panic!("expected a format error"),
    }
    match MacAddress::from_str("00:11:22:33:44:zz") {
        Err(NetError::PacketParse(m)) => assert_eq!(m, "invalid MAC address hex"),
        _ => panic!("expected a hex error"),
    }
    match MacAddress::from_str("00:11:22:33:44:100") {
        Err(NetError::PacketParse(m)) => assert_eq!(m, "invalid MAC address hex"),
        _ => panic!("expected a hex error"),
    }
}

#[test]
fn ethernet_header_round_trip() {
    let header = EthernetHeader::new(MacAddress::broadcast(), mac([2, 0, 0, 0, 0, 9]), EtherType::Arp);
    let mut builder = PacketBuilder::new();
    header.serialize(&mut builder);
    builder.write_bytes(&[0xaa, 0xbb]);
    let mut packet = builder.build();
    assert_eq!(
        packet.as_slice(),
        &[0xff, 0xff, 0xff, 0xff, 0xff, 0xff, 2, 0, 0, 0, 0, 9, 0x08, 0x06, 0xaa, 0xbb]
    );
    let parsed = EthernetHeader::parse(&mut packet).unwrap();
    assert!(parsed.destination == MacAddress::broadcast());
    assert!(parsed.source == mac([2, 0, 0, 0, 0, 9]));
    assert_eq!(parsed.ether_type, EtherType::Arp);
    assert_eq!(packet.as_slice(), &[0xaa, 0xbb]);
}

#[test]
fn ethernet_frame_round_trip_and_short_input() {
    let header = EthernetHeader::new(mac([1; 6]), mac([2; 6]), EtherType::Ipv4);
    let frame = EthernetFrame::new(header, Packet::from_vec(vec![1, 2, 3]));
    let bytes = frame.serialize();
    assert_eq!(bytes.len(), 17);
    let parsed = EthernetFrame::parse(bytes).unwrap();
    assert_eq!(parsed.header.ether_type, EtherType::Ipv4);
    assert_eq!(parsed.payload.as_slice(), &[1, 2, 3]);
    match EthernetFrame::parse(Packet::from_vec(vec![0; 13])) {
        Err(NetError::PacketParse(m)) => assert_eq!(m, "ethernet frame too short"),
        _ => panic!("expected a parse error"),
    }
}

#[test]
fn ip_protocol_numbers_round_trip() {
    assert_eq!(IpProtocol::from(1_u8), IpProtocol::Icmp);
    assert_eq!(IpProtocol::from(6_u8), IpProtocol::Tcp);
    assert_eq!(IpProtocol::from(17_u8), IpProtocol::Udp);
    assert_eq!(IpProtocol::from(50_u8), IpProtocol::Icmpv6);
    assert_eq!(IpProtocol::from(99_u8), IpProtocol::Unknown(99));
    assert_eq!(u8::from(IpProtocol::Udp), 17);
    assert_eq!(u8::from(IpProtocol::Unknown(6)), 6);
}

#[test]
fn ipv4_header_serialize_has_valid_checksum() {
    let mut header = Ipv4Header::new(
        Ipv4Address::new(192, 168, 1, 100),
        Ipv4Address::new(192, 168, 1, 1),
        IpProtocol::Tcp,
    );
    header.identification = 0x1234;
    let bytes = header.serialize(0);
    assert_eq!(
        bytes,
        vec![
            0x45, 0x00, 0x00, 0x14, 0x12, 0x34, 0x00, 0x00, 0x40, 0x06, 0xe4, 0xfa, 0xc0, 0xa8, 0x01,
            0x64, 0xc0, 0xa8, 0x01, 0x01
        ]
    );
    assert_eq!(header.total_length, 20);
    assert_eq!(internet_checksum(&bytes), 0);
}

#[test]
fn ipv4_header_round_trip() {
    let mut header = Ipv4Header::new(
        Ipv4Address::new(10, 0, 0, 1),
        Ipv4Address::new(10, 0, 0, 2),
        IpProtocol::Udp,
    );
    header.flags = 0;
    header.fragment_offset = 0x10;
    header.options = vec![1, 2, 3, 4];
    header.header_length = 6;
    let mut bytes = header.serialize(3);
    bytes.extend_from_slice(&[7, 8, 9]);
    let mut packet = Packet::from_vec(bytes);
    let parsed = Ipv4Header::parse(&mut packet).unwrap();
    assert_eq!(parsed.version, 4);
    assert_eq!(parsed.header_length, 6);
    assert_eq!(parsed.total_length, 27);
    assert_eq!(parsed.identification, header.identification);
    assert_eq!(parsed.fragment_offset, 0x10);
    assert_eq!(parsed.protocol, IpProtocol::Udp);
    assert_eq!(parsed.source, Ipv4Address::new(10, 0, 0, 1));
    assert_eq!(parsed.destination, Ipv4Address::new(10, 0, 0, 2));
    assert_eq!(parsed.options, vec![1, 2, 3, 4]);
    assert!(parsed.is_fragmented());
    assert_eq!(packet.as_slice(), &[7, 8, 9]);
}

#[test]
fn ipv4_parse_errors() {
    match Ipv4Header::parse(&mut Packet::from_vec(vec![0x45; 19])) {
        Err(NetError::PacketParse(m)) => assert_eq!(m, "IPv4 header too short"),
        _ => panic!("expected too short"),
    }
    let mut v6 = vec![0; 20];
    v6[0] = 0x65;
    match Ipv4Header::parse(&mut Packet::from_vec(v6)) {
        Err(NetError::Protocol { protocol, message }) => {
            assert_eq!(protocol, "IPv4");
            assert_eq!(message, "Invalid version");
        }
        _ => panic!("expected invalid version"),
    }
    let mut short_ihl = vec![0; 20];
    short_ihl[0] = 0x44;
    match Ipv4Header::parse(&mut Packet::from_vec(short_ihl)) {
        Err(NetError::Protocol { message, .. }) => assert_eq!(message, "Header length too small"),
        _ => panic!("expected header length error"),
    }
    let mut missing_options = vec![0; 20];
    missing_options[0] = 0x46;
    assert!(matches!(
        Ipv4Header::parse(&mut Packet::from_vec(missing_options)),
        Err(NetError::BufferOverflow)
    ));
}

#[test]
fn ipv4_fragment_flag() {
    let mut header = Ipv4Header::new(Ipv4Address(0), Ipv4Address(0), IpProtocol::Icmp);
    assert!(!header.is_fragmented());
    header.flags = 0x01;
    assert!(header.is_fragmented());
}

#[test]
fn ipv6_header_serialize_and_parse() {
    let mut src = [0_u8; 16];
    src[15] = 1;
    let mut dst = [0_u8; 16];
    dst[0] = 0xfe;
    dst[1] = 0x80;
    let mut header =
        Ipv6Header::new(Ipv6Address::from_octets(src), Ipv6Address::from_octets(dst), IpProtocol::Tcp);
    let bytes = header.serialize(8);
    assert_eq!(bytes.len(), 40);
    assert_eq!(&bytes[..8], &[0x60, 0, 0, 0, 0, 8, 6, 64]);
    assert_eq!(header.payload_length, 8);
    // the version is read from the same bits as the traffic class, so a
    // header with traffic class 0 is refused
    match Ipv6Header::parse(&mut Packet::from_vec(bytes)) {
        Err(NetError::Protocol { protocol, message }) => {
            assert_eq!(protocol, "IPv6");
            assert_eq!(message, "Invalid version");
        }
        _ => panic!("expected invalid version"),
    }
    header.traffic_class = 6;
    header.flow_label = 0xabcde;
    let bytes = header.serialize(0);
    let mut packet = Packet::from_vec(bytes);
    let parsed = Ipv6Header::parse(&mut packet).unwrap();
    assert_eq!(parsed.version, 6);
    assert_eq!(parsed.traffic_class, 6);
    assert_eq!(parsed.flow_label, 0xabcde);
    assert_eq!(parsed.next_header, IpProtocol::Tcp);
    assert_eq!(parsed.hop_limit, 64);
    assert_eq!(parsed.source, Ipv6Address::from_octets(src));
    assert_eq!(parsed.destination, Ipv6Address::from_octets(dst));
    assert!(packet.is_empty());
    match Ipv6Header::parse(&mut Packet::from_vec(vec![0; 39])) {
        Err(NetError::PacketParse(m)) => assert_eq!(m, "IPv6 header too short"),
        _ => panic!("expected too short"),
    }
}

#[test]
fn ip_packet_parse_and_serialize() {
    let mut header = Ipv4Header::new(Ipv4Address::new(1, 2, 3, 4), Ipv4Address::new(5, 6, 7, 8), IpProtocol::Udp);
    let mut bytes = header.serialize(2);
    bytes.extend_from_slice(&[0xde, 0xad]);
    let mut packet = IpPacket::parse_v4(Packet::from_vec(bytes.clone())).unwrap();
    assert_eq!(packet.protocol(), IpProtocol::Udp);
    assert_eq!(packet.payload().as_slice(), &[0xde, 0xad]);
    let again = packet.serialize();
    assert_eq!(again.as_slice(), &bytes[..]);
    assert!(IpPacket::parse_v6(Packet::from_vec(vec![0; 10])).is_err());
}

#[test]
fn tcp_flags_bits() {
    let f = TcpFlags::from_u8(0x12);
    assert!(f.syn && f.ack && !f.fin && !f.rst && !f.psh && !f.urg && !f.ece && !f.cwr);
    let all = TcpFlags::from_u8(0xff);
    assert!(all.fin && all.syn && all.rst && all.psh && all.ack && all.urg && all.ece && all.cwr);
    assert!(TcpFlags::syn().syn && !TcpFlags::syn().ack);
    assert!(TcpFlags::syn_ack().syn && TcpFlags::syn_ack().ack);
    assert!(TcpFlags::fin().fin && TcpFlags::rst().rst && TcpFlags::ack().ack);
    let d = TcpFlags::default();
    assert!(!(d.fin || d.syn || d.rst || d.psh || d.ack || d.urg || d.ece || d.cwr));
    // converting back to a byte sets no bits
    assert_eq!(TcpFlags::syn_ack().to_u8(), 0);
    assert_eq!(all.to_u8(), 0);
}

#[test]
fn tcp_header_serialize_and_parse() {
    let mut header = TcpHeader::new(12345, 80);
    header.sequence_number = 1000;
    header.acknowledgment_number = 7;
    header.flags = TcpFlags::syn();
    header.window_size = 512;
    header.urgent_pointer = 3;
    let bytes = header.serialize(0);
    assert_eq!(
        bytes,
        vec![0x30, 0x39, 0x00, 0x50, 0, 0, 0x03, 0xe8, 0, 0, 0, 7, 0x50, 0x00, 0x02, 0x00, 0, 0, 0, 3]
    );
    let mut with_payload = bytes.clone();
    with_payload.extend_from_slice(b"hi");
    let mut packet = Packet::from_vec(with_payload);
    let parsed = TcpHeader::parse(&mut packet).unwrap();
    assert_eq!(parsed.source_port, 12345);
    assert_eq!(parsed.destination_port, 80);
    assert_eq!(parsed.sequence_number, 1000);
    assert_eq!(parsed.acknowledgment_number, 7);
    assert_eq!(parsed.data_offset, 5);
    assert!(!parsed.flags.syn);
    assert_eq!(parsed.window_size, 512);
    assert_eq!(parsed.urgent_pointer, 3);
    assert_eq!(packet.as_slice(), b"hi");
}

#[test]
fn tcp_parse_errors() {
    match TcpHeader::parse(&mut Packet::from_vec(vec![0; 19])) {
        Err(NetError::PacketParse(m)) => assert_eq!(m, "TCP header too short"),
        _ => panic!("expected too short"),
    }
    let mut bad_offset = vec![0; 20];
    bad_offset[12] = 0x40;
    match TcpHeader::parse(&mut Packet::from_vec(bad_offset)) {
        Err(NetError::Protocol { protocol, message }) => {
            assert_eq!(protocol, "TCP");
            assert_eq!(message, "invalid data offset");
        }
        _ => panic!("expected invalid data offset"),
    }
    let mut missing_options = vec![0; 20];
    missing_options[12] = 0x60;
    assert!(matches!(
        TcpHeader::parse(&mut Packet::from_vec(missing_options)),
        Err(NetError::BufferOverflow)
    ));
    let mut with_flags = vec![0; 20];
    with_flags[12] = 0x50;
    with_flags[13] = 0x11;
    let h = TcpHeader::parse(&mut Packet::from_vec(with_flags)).unwrap();
    assert!(h.flags.fin && h.flags.ack && !h.flags.syn);
}

#[test]
fn tcp_checksum_over_pseudo_header() {
    let mut header = TcpHeader::new(1, 2);
    let src = ip_to_bytes(&IpAddress::V4(Ipv4Address::new(10, 0, 0, 1)));
    let dst = ip_to_bytes(&IpAddress::V4(Ipv4Address::new(10, 0, 0, 2)));
    header.calculate_checksum(&src, &dst, b"abcd");
    // pseudo header: 10.0.0.1, 10.0.0.2, 0, 6, then the low six bytes of the
    // length 24 as a 64-bit number: 00 00 00 00 00 18
    let mut pseudo = vec![10, 0, 0, 1, 10, 0, 0, 2, 0, 6];
    pseudo.extend_from_slice(&24_usize.to_be_bytes()[2..]);
    assert_eq!(header.checksum, internet_checksum(&pseudo));
}

#[test]
fn tcp_segment_serialize_and_parse() {
    let mut header = TcpHeader::new(4000, 5000);
    header.sequence_number = 42;
    let mut segment = TcpSegment::new(header, Packet::from_vec(b"data".to_vec()));
    let bytes = segment.serialize(&[1, 1, 1, 1], &[2, 2, 2, 2]);
    assert_eq!(bytes.len(), 24);
    // the checksum field on the wire stays zero
    assert_eq!(&bytes.as_slice()[16..18], &[0, 0]);
    let parsed = TcpSegment::parse(bytes).unwrap();
    assert_eq!(parsed.header.source_port, 4000);
    assert_eq!(parsed.header.destination_port, 5000);
    assert_eq!(parsed.header.sequence_number, 42);
    assert_eq!(parsed.payload.as_slice(), b"data");
    assert!(TcpSegment::parse(Packet::from_vec(vec![0; 5])).is_err());
}

#[test]
fn ip_to_bytes_gives_octets() {
    assert_eq!(ip_to_bytes(&IpAddress::V4(Ipv4Address::new(1, 2, 3, 4))), vec![1, 2, 3, 4]);
    let mut o = [0_u8; 16];
    o[0] = 0x20;
    o[15] = 9;
    assert_eq!(ip_to_bytes(&IpAddress::V6(Ipv6Address::from_octets(o))), o.to_vec());
}
