use tcpstack::utils::timestamp_from;
use tcpstack::addr::{IpAddress, Ipv4Address, Ipv6Address, SocketAddress};
use tcpstack::error::NetError;
use tcpstack::stack::{StackConfig, StackStats};
use tcpstack::utils::{
    calculate_broadcast, calculate_network, cidr_to_netmask, current_timestamp_ms, generate_random_mac,
    generate_random_port, is_reserved_port, mac_from_random_bytes, netmask_to_cidr, same_network,
    validate_mac_address,
};

fn invalid_address_message(r: Result<impl Sized, NetError>) -> String {
    match r {
        Err(NetError::InvalidAddress(m)) => m,
        Err(_) => panic!("expected an invalid address error"),
        Ok(_) => panic!("expected an error"),
    }
}

#[test]
fn network_uses_bitwise_or() {
    let ip = Ipv4Address::new(192, 168, 1, 77);
    let mask = Ipv4Address::new(255, 255, 255, 0);
    assert_eq!(calculate_network(&ip, &mask), Ipv4Address::new(255, 255, 255, 77));
    assert_eq!(calculate_broadcast(&ip, &mask), Ipv4Address::new(192, 168, 1, 255));
    assert!(same_network(&ip, &Ipv4Address::new(10, 0, 0, 77), &mask));
    assert!(!same_network(&ip, &Ipv4Address::new(10, 0, 0, 78), &mask));
}

#[test]
fn cidr_and_netmask_convert_both_ways() {
    assert_eq!(cidr_to_netmask(0).unwrap(), Ipv4Address(0));
    assert_eq!(cidr_to_netmask(24).unwrap(), Ipv4Address::new(255, 255, 255, 0));
    assert_eq!(cidr_to_netmask(32).unwrap(), Ipv4Address(u32::MAX));
    assert_eq!(cidr_to_netmask(1).unwrap(), Ipv4Address::new(128, 0, 0, 0));
    assert_eq!(invalid_address_message(cidr_to_netmask(33)), "invalid CIDR notation");
    for cidr in 0..=32_u8 {
        assert_eq!(netmask_to_cidr(&cidr_to_netmask(cidr).unwrap()), cidr);
    }
    // the count of one bits, wherever they stand
    assert_eq!(netmask_to_cidr(&Ipv4Address(0x0000_00ff)), 8);
    assert_eq!(netmask_to_cidr(&Ipv4Address(0x8000_0001)), 2);
}

#[test]
fn mac_address_validation() {
    assert!(validate_mac_address("00:1A:2b:3C:4d:5E").is_ok());
    assert_eq!(invalid_address_message(validate_mac_address("00:11:22")), "MAC address must have 6 parts");
    assert_eq!(
        invalid_address_message(validate_mac_address("00:11:22:33:44:5")),
        "each MAC address part msut be 2 chars"
    );
    assert_eq!(
        invalid_address_message(validate_mac_address("00:11:22:33:44:zz")),
        "Invalid hexadecimal in MAC addr"
    );
    // the first failing part decides
    assert_eq!(
        invalid_address_message(validate_mac_address("0g:1:22:33:44:55")),
        "Invalid hexadecimal in MAC addr"
    );
    // a leading plus is accepted by the hexadecimal parse
    assert!(validate_mac_address("+a:11:22:33:44:55").is_ok());
}

#[test]
fn random_mac_is_local_unicast() {
    for _ in 0..20 {
        let m = generate_random_mac();
        assert_eq!(m.as_bytes()[0] & 0x03, 0x02);
        assert!(m.is_unicast());
    }
    let m = mac_from_random_bytes([0xff, 1, 2, 3, 4, 5]);
    assert_eq!(m.as_bytes(), &[0xfe, 1, 2, 3, 4, 5]);
    let m = mac_from_random_bytes([0x00, 9, 9, 9, 9, 9]);
    assert_eq!(m.as_bytes(), &[0x02, 9, 9, 9, 9, 9]);
}

#[test]
fn random_port_is_unreserved() {
    for _ in 0..200 {
        let p = generate_random_port();
        assert!((1024..65535).contains(&p));
        assert!(!is_reserved_port(p));
    }
    assert!(is_reserved_port(0));
    assert!(is_reserved_port(1023));
    assert!(!is_reserved_port(1024));
}

#[test]
fn timestamp_is_after_2020() {
    // whole seconds since the epoch
    let t = current_timestamp_ms();
    assert!(t > 1_577_836_800);
    assert!(t < 10_000_000_000);
}

#[test]
fn address_octets() {
    let a = Ipv4Address::new(1, 2, 3, 4);
    assert_eq!(a.0, 0x0102_0304);
    assert_eq!(a.octets(), [1, 2, 3, 4]);
    assert_eq!(Ipv4Address::from_octets([9, 8, 7, 6]), Ipv4Address::new(9, 8, 7, 6));
    let mut o = [0_u8; 16];
    o[0] = 0xfe;
    o[15] = 0x01;
    let b = Ipv6Address::from_octets(o);
    assert_eq!(b.0, (0xfe_u128 << 120) | 1);
    assert_eq!(b.octets(), o);
    let s = SocketAddress::new(IpAddress::V4(a), 80);
    assert_eq!(s.ip(), IpAddress::V4(a));
    assert_eq!(s.port(), 80);
}

#[test]
fn stack_defaults() {
    let c = StackConfig::default();
    assert!(c.enable_ipv4 && c.enable_ipv6 && c.enable_icmp);
    assert_eq!(c.tcp_connection_timeout, std::time::Duration::from_secs(300));
    assert_eq!(c.tcp_retransmit_timeout, std::time::Duration::from_millis(200));
    assert_eq!(c.tcp_max_retransmits, 3);
    assert_eq!(c.arp_timeout, std::time::Duration::from_secs(300));
    assert_eq!(c.packet_buffer_size, 1000);
    assert_eq!(c.worker_threads, 4);
    let copy = c.clone();
    assert_eq!(copy.worker_threads, 4);
    let s = StackStats::default();
    assert_eq!(s.packets_processed, 0);
    assert_eq!(s.errors_total, 0);
    assert_eq!(s, s.clone());
}

#[test]
fn error_constructors_carry_messages() {
    match NetError::interface("eth0 missing") {
        NetError::Interface { message } => assert_eq!(message, "eth0 missing"),
        _ => panic!("wrong variant"),
    }
    match NetError::protocol("UDP", "bad") {
        NetError::Protocol { protocol, message } => {
            assert_eq!(protocol, "UDP");
            assert_eq!(message, "bad");
        }
        _ => panic!("wrong variant"),
    }
    assert!(matches!(NetError::packet_parse("p"), NetError::PacketParse(m) if m == "p"));
    assert!(matches!(NetError::socket("s"), NetError::Socket(m) if m == "s"));
}

#[test]
fn timestamp_from_whole_seconds() {
    assert_eq!(timestamp_from(None), 0);
    assert_eq!(timestamp_from(Some(std::time::Duration::from_millis(2_999))), 2);
    assert_eq!(timestamp_from(Some(std::time::Duration::from_secs(1_700_000_000))), 1_700_000_000);
}

#[test]
fn error_text_forms() {
    assert_eq!(
        NetError::protocol("TCP", "invalid data offset").to_display_string(),
        "Protocol error: TCP - invalid data offset"
    );
    assert_eq!(NetError::interface("x").to_display_string(), "Network interface error: x");
    assert_eq!(NetError::packet_parse("p").to_display_string(), "Packet parsing error: p");
    assert_eq!(NetError::socket("s").to_display_string(), "Socket error: s");
    assert_eq!(NetError::ChecksumMismatch.to_display_string(), "Checksum validation failed");
    assert_eq!(NetError::Timeout.to_display_string(), "Connection timeout");
    assert_eq!(NetError::ConnectionRefused.to_display_string(), "Connection refused");
    assert_eq!(NetError::InvalidAddress("a".to_string()).to_display_string(), "Invalid address: a");
    assert_eq!(NetError::BufferOverflow.to_display_string(), "Buffer overflow");
    assert_eq!(NetError::Configuration("c".to_string()).to_display_string(), "Configuration error: c");
    let io = NetError::Io(std::io::Error::new(std::io::ErrorKind::Other, "disk gone"));
    assert_eq!(io.to_display_string(), "IO error: disk gone");
}
