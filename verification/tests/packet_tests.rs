use bytes::Bytes;
use tcpstack::addr::{Ipv4Address, Ipv6Address};
use tcpstack::packet::{internet_checksum, Packet, PacketBuilder, MTU};
use tcpstack::NetError;

#[test]
fn test_packet_operations() {
    let data = vec![0x12, 0x34, 0x56, 0x78];
    let mut packet = Packet::from_vec(data);

    assert_eq!(packet.len(), 4);
    assert_eq!(packet.read_u16().unwrap(), 0x1234);
    assert_eq!(packet.read_u16().unwrap(), 0x5678);
    assert_eq!(packet.len(), 0);
}

#[test]
fn test_packet_builder() {
    let mut builder = PacketBuilder::new();
    builder.write_u16(0x1234);
    builder.write_u16(0x5678);

    let packet = builder.build();
    assert_eq!(packet.as_slice(), &[0x12, 0x34, 0x56, 0x78]);
}

#[test]
fn test_internet_checksum() {
    let data = [0x45, 0x00, 0x00, 0x3c, 0x1c, 0x46, 0x40, 0x00];
    let checksum = internet_checksum(&data);

    assert_ne!(checksum, 0); // should produce valid checksum
}

#[test]
fn checksum_of_even_buffer_is_complement_of_word_sum() {
    let data = [0x45, 0x00, 0x00, 0x3c, 0x1c, 0x46, 0x40, 0x00];
    assert_eq!(internet_checksum(&data), 0x5e7d);
}

#[test]
fn checksum_pads_odd_byte_with_zero() {
    assert_eq!(internet_checksum(&[0x01, 0x02, 0x03]), 0xfbfd);
    assert_eq!(internet_checksum(&[0xff]), 0x00ff);
}

#[test]
fn checksum_folds_carries() {
    // 0xffff + 0x0001 = 0x10000, folded to 0x0001, complemented to 0xfffe
    assert_eq!(internet_checksum(&[0xff, 0xff, 0x00, 0x01]), 0xfffe);
}

#[test]
fn checksum_inserted_into_buffer_verifies() {
    let mut data = vec![0x45, 0x00, 0x00, 0x3c, 0x1c, 0x46, 0x40, 0x00, 0x00, 0x00];
    let c = internet_checksum(&data);
    data[8] = (c >> 8) as u8;
    data[9] = c as u8;
    assert_eq!(internet_checksum(&data), 0);
}

#[test]
fn packet_reads_advance_and_fail_past_end() {
    let mut packet = Packet::from_vec(vec![1, 2, 3, 4, 5, 6, 7]);
    assert_eq!(packet.read_u8().unwrap(), 1);
    assert_eq!(packet.read_u32().unwrap(), 0x0203_0405);
    assert_eq!(packet.len(), 2);
    assert!(matches!(packet.read_u32(), Err(NetError::BufferOverflow)));
    assert_eq!(packet.len(), 2);
    assert_eq!(packet.peek(1).unwrap(), 7);
    assert!(matches!(packet.peek(2), Err(NetError::BufferOverflow)));
    let rest = packet.read_bytes(2).unwrap();
    assert_eq!(&rest[..], &[6, 7]);
    assert!(packet.is_empty());
    assert!(matches!(packet.read_u8(), Err(NetError::BufferOverflow)));
    assert!(matches!(packet.read_u16(), Err(NetError::BufferOverflow)));
}

#[test]
fn packet_advance_and_split() {
    let mut packet = Packet::new(Bytes::from(vec![9, 8, 7, 6, 5]));
    packet.advance(1).unwrap();
    assert_eq!(packet.as_slice(), &[8, 7, 6, 5]);
    assert!(matches!(packet.advance(5), Err(NetError::BufferOverflow)));
    let (left, right) = packet.split_at(2).unwrap();
    // the left part keeps everything from the current position
    assert_eq!(left.as_slice(), &[8, 7, 6, 5]);
    assert_eq!(right.as_slice(), &[6, 5]);
    assert!(matches!(packet.split_at(5), Err(NetError::BufferOverflow)));
    let (_, empty) = packet.split_at(4).unwrap();
    assert!(empty.is_empty());
}

#[test]
fn builder_writes_big_endian_and_addresses() {
    let mut builder = PacketBuilder::default();
    assert_eq!(builder.len(), 0);
    builder.write_u8(0xab);
    builder.write_u32(0x0102_0304);
    builder.write_bytes(&[0xee]);
    builder.write_ipv4(Ipv4Address::new(192, 168, 1, 1));
    let mut v6 = [0_u8; 16];
    v6[15] = 1;
    builder.write_ipv6(Ipv6Address::from_octets(v6));
    assert_eq!(builder.len(), 1 + 4 + 1 + 4 + 16);
    let mut packet = builder.build();
    assert_eq!(packet.read_u8().unwrap(), 0xab);
    assert_eq!(packet.read_u32().unwrap(), 0x0102_0304);
    assert_eq!(packet.read_u8().unwrap(), 0xee);
    assert_eq!(&packet.read_bytes(4).unwrap()[..], &[192, 168, 1, 1]);
    let tail = packet.read_bytes(16).unwrap();
    assert_eq!(&tail[..], &v6[..]);
}

#[test]
fn builder_with_capacity_starts_empty() {
    let mut builder = PacketBuilder::with_capacity(4);
    assert_eq!(builder.len(), 0);
    builder.write_u16(0xbeef);
    builder.write_u16(0xcafe);
    builder.write_u8(1);
    assert_eq!(builder.build().as_slice(), &[0xbe, 0xef, 0xca, 0xfe, 1]);
    assert_eq!(MTU, 1500);
}

#[test]
fn packet_clone_keeps_unread_bytes() {
    let mut packet = Packet::from_vec(vec![1, 2, 3]);
    packet.read_u8().unwrap();
    let copy = packet.clone();
    assert_eq!(copy.as_slice(), &[2, 3]);
}
