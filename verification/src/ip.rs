//! IPv4 and IPv6 headers and packets.
use vstd::prelude::*;

use crate::addr::{Ipv4Address, Ipv6Address};
use crate::buffer::{bytes_as_slice, bytes_mut_limit};
use crate::error::{NetError, NetResult};
use crate::packet::{
    Packet, PacketBuilder, checksum_of, internet_checksum, lemma_checksum_verifies, with_u16_at,
    word_sum,
};
use crate::random::random_u16;
use crate::wire::{
    be16, be32, be_value, extend_bytes, lemma_be16, lemma_be32, lemma_u16_bytes, lemma_u32_bytes,
    u16_bytes, u16_to_be, u32_bytes, u32_to_be,
};

verus! {

/// IP protocol numbers.
#[derive(Debug, Clone, Copy, PartialEq, Eq, Structural)]
pub enum IpProtocol {
    Icmp,
    Tcp,
    Udp,
    Icmpv6,
    Unknown(u8),
}

/// The protocol that the number `value` names.
pub open spec fn ip_protocol_of(value: u8) -> IpProtocol {
    if value == 1 {
        IpProtocol::Icmp
    } else if value == 6 {
        IpProtocol::Tcp
    } else if value == 17 {
        IpProtocol::Udp
    } else if value == 50 {
        IpProtocol::Icmpv6
    } else {
        IpProtocol::Unknown(value)
    }
}

/// The number of a protocol.
pub open spec fn ip_protocol_value(p: IpProtocol) -> u8 {
    match p {
        IpProtocol::Icmp => 1,
        IpProtocol::Tcp => 6,
        IpProtocol::Udp => 17,
        IpProtocol::Icmpv6 => 50,
        IpProtocol::Unknown(value) => value,
    }
}

/// A protocol in the form that reading its number produces.
pub open spec fn is_canonical_ip_protocol(p: IpProtocol) -> bool {
    ip_protocol_of(ip_protocol_value(p)) == p
}

impl From<u8> for IpProtocol {
    fn from(value: u8) -> (r: Self) {
        match value {
            1 => IpProtocol::Icmp,
            6 => IpProtocol::Tcp,
            17 => IpProtocol::Udp,
            50 => IpProtocol::Icmpv6,
            other => IpProtocol::Unknown(other),
        }
    }
}

impl vstd::std_specs::convert::FromSpecImpl<u8> for IpProtocol {
    open spec fn obeys_from_spec() -> bool {
        true
    }

    open spec fn from_spec(value: u8) -> IpProtocol {
        ip_protocol_of(value)
    }
}

impl From<IpProtocol> for u8 {
    fn from(protocol: IpProtocol) -> (r: Self) {
        match protocol {
            IpProtocol::Icmp => 1,
            IpProtocol::Tcp => 6,
            IpProtocol::Udp => 17,
            IpProtocol::Icmpv6 => 50,
            IpProtocol::Unknown(value) => value,
        }
    }
}

impl vstd::std_specs::convert::FromSpecImpl<IpProtocol> for u8 {
    open spec fn obeys_from_spec() -> bool {
        true
    }

    open spec fn from_spec(p: IpProtocol) -> u8 {
        ip_protocol_value(p)
    }
}

/// Law: reading a number as a protocol and writing it back gives the number
/// back, for every number.
pub proof fn lemma_ip_protocol_value_of(value: u8)
    ensures
        ip_protocol_value(ip_protocol_of(value)) == value,
{
}

/// Law: writing a protocol as a number and reading it back gives the
/// protocol back exactly when it is canonical; `Unknown(6)` comes back as
/// `Tcp`.
pub proof fn lemma_ip_protocol_of_value(p: IpProtocol)
    ensures
        is_canonical_ip_protocol(p) <==> !(p matches IpProtocol::Unknown(v) && (v == 1 || v == 6
            || v == 17 || v == 50)),
{
}

/// An IPv4 header.
#[derive(Debug, Clone)]
pub struct Ipv4Header {
    pub version: u8,
    pub header_length: u8,
    pub type_of_service: u8,
    pub total_length: u16,
    pub identification: u16,
    pub flags: u8,
    pub fragment_offset: u16,
    pub time_to_live: u8,
    pub protocol: IpProtocol,
    pub checksum: u16,
    pub source: Ipv4Address,
    pub destination: Ipv4Address,
    pub options: Vec<u8>,
}

/// The number of option bytes that a header length (in 32-bit words) implies.
pub open spec fn ipv4_options_len(header_length: u8) -> int {
    (header_length - 5) * 4
}

/// Whether `h` holds the fields that the bytes `s` (at least 20 of them,
/// followed by the options) spell.
pub open spec fn ipv4_header_matches(h: Ipv4Header, s: Seq<u8>) -> bool {
    let flags_fragment = be16(s[6], s[7]);
    &&& h.version == s[0] / 16
    &&& h.header_length == s[0] % 16
    &&& h.type_of_service == s[1]
    &&& h.total_length == be16(s[2], s[3])
    &&& h.identification == be16(s[4], s[5])
    &&& h.flags == flags_fragment / 8192
    &&& h.fragment_offset == flags_fragment % 8192
    &&& h.time_to_live == s[8]
    &&& h.protocol == ip_protocol_of(s[9])
    &&& h.checksum == be16(s[10], s[11])
    &&& h.source == Ipv4Address(be32(s.subrange(12, 16)))
    &&& h.destination == Ipv4Address(be32(s.subrange(16, 20)))
    &&& h.options@ == s.subrange(20, 20 + ipv4_options_len(h.header_length))
}

/// The bytes of header `h` on the wire, with `checksum` in the checksum field.
pub open spec fn ipv4_header_bytes(h: Ipv4Header, checksum: u16) -> Seq<u8> {
    seq![(h.version << 4u8) | h.header_length, h.type_of_service] + u16_bytes(h.total_length)
        + u16_bytes(h.identification) + u16_bytes(((h.flags as u16) << 13u16) | h.fragment_offset)
        + seq![h.time_to_live, ip_protocol_value(h.protocol)] + u16_bytes(checksum)
        + h.source.octets_spec() + h.destination.octets_spec() + h.options@
}

/// The total length that serializing with `payload_length` payload bytes records.
pub open spec fn ipv4_total_length(h: Ipv4Header, payload_length: usize) -> u16 {
    (h.header_length * 4 + payload_length) as u16
}

/// `h` with its total length set for `payload_length` payload bytes.
pub open spec fn ipv4_with_total_length(h: Ipv4Header, payload_length: usize) -> Ipv4Header {
    Ipv4Header { total_length: ipv4_total_length(h, payload_length), ..h }
}

/// A header that survives being written and read back: version 4, a header
/// length that fits its nibble and matches the options, and flags and
/// fragment offset that fit their bits.
pub open spec fn ipv4_header_fits_wire(h: Ipv4Header) -> bool {
    &&& h.version == 4
    &&& 5 <= h.header_length < 16
    &&& h.options@.len() == ipv4_options_len(h.header_length)
    &&& h.flags < 8
    &&& h.fragment_offset < 8192
    &&& is_canonical_ip_protocol(h.protocol)
}

impl Ipv4Header {
    pub const MIN_LENGTH: usize = 20;

    pub const MAX_LENGTH: usize = 60;

    /// A header for a packet from `source` to `destination`: version 4,
    /// 20 bytes long, "don't fragment", time to live 64, no options; the
    /// identification is random.
    pub fn new(source: Ipv4Address, destination: Ipv4Address, protocol: IpProtocol) -> (r: Self)
        ensures
            r.version == 4,
            r.header_length == 5,
            r.type_of_service == 0,
            r.total_length == 0,
            r.flags == 0x40,
            r.fragment_offset == 0,
            r.time_to_live == 64,
            r.protocol == protocol,
            r.checksum == 0,
            r.source == source,
            r.destination == destination,
            r.options@ == Seq::<u8>::empty(),
    {
        Self {
            version: 4,
            header_length: 5,
            type_of_service: 0,
            total_length: 0,
            identification: random_u16(),
            flags: 0x40,
            fragment_offset: 0,
            time_to_live: 64,
            protocol,
            checksum: 0,
            source,
            destination,
            options: Vec::new(),
        }
    }

    /// Reads a header (and its options) from the front of `packet`.
    pub fn parse(packet: &mut Packet) -> (r: NetResult<Self>)
        ensures
            ({
                let s = old(packet)@;
                let options_end = 20 + ipv4_options_len(s[0] % 16);
                &&& s.len() < 20 ==> (r matches Err(NetError::PacketParse(m)) && m@
                    == "IPv4 header too short"@ && final(packet)@ == s)
                &&& s.len() >= 20 && s[0] / 16 != 4 ==> (r matches Err(
                    NetError::Protocol { protocol, message },
                ) && protocol@ == "IPv4"@ && message@ == "Invalid version"@ && final(packet)@
                    == s.skip(1))
                &&& s.len() >= 20 && s[0] / 16 == 4 && s[0] % 16 < 5 ==> (r matches Err(
                    NetError::Protocol { protocol, message },
                ) && protocol@ == "IPv4"@ && message@ == "Header length too small"@
                    && final(packet)@ == s.skip(1))
                &&& s.len() >= 20 && s[0] / 16 == 4 && s[0] % 16 >= 5 && s.len() < options_end
                    ==> (r matches Err(NetError::BufferOverflow) && final(packet)@ == s.skip(20))
                &&& s.len() >= 20 && s[0] / 16 == 4 && s[0] % 16 >= 5 && s.len() >= options_end
                    ==> (r matches Ok(h) && ipv4_header_matches(h, s) && final(packet)@ == s.skip(
                    options_end,
                ))
            }),
    {
        if packet.len() < Self::MIN_LENGTH {
            return Err(NetError::packet_parse("IPv4 header too short"));
        }
        let ghost s = packet@;
        let version_ihl = packet.read_u8().unwrap();
        let version = version_ihl >> 4;
        let header_length = version_ihl & 0x0F;
        assert(version_ihl >> 4u8 == version_ihl / 16 && version_ihl & 0x0Fu8 == version_ihl % 16)
            by (bit_vector);

        if version != 4 {
            return Err(NetError::protocol("IPv4", "Invalid version"));
        }
        if header_length < 5 {
            return Err(NetError::protocol("IPv4", "Header length too small"));
        }

        let type_of_service = packet.read_u8().unwrap();
        let total_length = packet.read_u16().unwrap();
        let identification = packet.read_u16().unwrap();
        let flags_fragment = packet.read_u16().unwrap();
        let flags = (flags_fragment >> 13) as u8;
        let fragment_offset = flags_fragment & 0x1FFF;
        assert(((flags_fragment >> 13u16) as u8) == flags_fragment / 8192 && flags_fragment
            & 0x1FFFu16 == flags_fragment % 8192) by (bit_vector);
        let time_to_live = packet.read_u8().unwrap();
        let protocol = IpProtocol::from(packet.read_u8().unwrap());
        let checksum = packet.read_u16().unwrap();

        let source_bytes = packet.read_bytes(4).unwrap();
        let destination_bytes = packet.read_bytes(4).unwrap();
        let sb = bytes_as_slice(&source_bytes);
        let db = bytes_as_slice(&destination_bytes);
        let source = Ipv4Address::from_octets([sb[0], sb[1], sb[2], sb[3]]);
        let destination = Ipv4Address::from_octets([db[0], db[1], db[2], db[3]]);
        proof {
            assert([sb[0], sb[1], sb[2], sb[3]]@ =~= s.subrange(12, 16));
            assert([db[0], db[1], db[2], db[3]]@ =~= s.subrange(16, 20));
            assert(packet@ =~= s.skip(20));
        }

        let options_length = (header_length as usize - 5) * 4;
        let options = if options_length > 0 {
            let option_bytes = packet.read_bytes(options_length)?;
            let v = vstd::slice::slice_to_vec(bytes_as_slice(&option_bytes));
            proof {
                assert(v@ =~= s.subrange(20, 20 + options_length));
                assert(packet@ =~= s.skip(20 + options_length));
            }
            v
        } else {
            let v = Vec::new();
            proof {
                assert(v@ =~= s.subrange(20, 20 + options_length));
            }
            v
        };

        Ok(Ipv4Header {
            version,
            header_length,
            type_of_service,
            total_length,
            identification,
            flags,
            fragment_offset,
            time_to_live,
            protocol,
            checksum,
            source,
            destination,
            options,
        })
    }

    /// Records the total length for `payload_length` payload bytes and
    /// returns the header's bytes, with the checksum filled in.
    pub fn serialize(&mut self, payload_length: usize) -> (r: Vec<u8>)
        requires
            old(self).header_length * 4 + payload_length <= usize::MAX,
            word_sum(ipv4_header_bytes(ipv4_with_total_length(*old(self), payload_length), 0))
                <= u32::MAX,
        ensures
            *final(self) == ipv4_with_total_length(*old(self), payload_length),
            r@ == ipv4_header_bytes(
                *final(self),
                checksum_of(ipv4_header_bytes(*final(self), 0)),
            ),
            checksum_of(r@) == 0,
            r@.len() == 20 + old(self).options@.len(),
    {
        self.total_length = (self.header_length as usize * 4 + payload_length) as u16;

        let mut buffer: Vec<u8> = Vec::with_capacity(self.header_length as usize * 4);

        buffer.push((self.version << 4) | self.header_length);
        buffer.push(self.type_of_service);
        extend_bytes(&mut buffer, &u16_to_be(self.total_length));
        extend_bytes(&mut buffer, &u16_to_be(self.identification));

        let flags_fragment = ((self.flags as u16) << 13) | self.fragment_offset;
        extend_bytes(&mut buffer, &u16_to_be(flags_fragment));

        buffer.push(self.time_to_live);
        buffer.push(u8::from(self.protocol));
        extend_bytes(&mut buffer, &[0, 0]);
        extend_bytes(&mut buffer, &self.source.octets());
        extend_bytes(&mut buffer, &self.destination.octets());
        extend_bytes(&mut buffer, self.options.as_slice());

        let ghost zeroed = buffer@;
        proof {
            lemma_u16_bytes(0);
            assert(zeroed =~= ipv4_header_bytes(*self, 0));
        }

        // calculate and insert checksum
        let checksum = internet_checksum(&buffer);
        assert(((checksum >> 8u16) as u8) == checksum / 256 && (checksum as u8) == checksum % 256)
            by (bit_vector);
        buffer.set(10, (checksum >> 8) as u8);
        buffer.set(11, checksum as u8);
        proof {
            assert(buffer@ =~= with_u16_at(zeroed, 10, checksum));
            assert(buffer@ =~= ipv4_header_bytes(*self, checksum));
            lemma_checksum_verifies(zeroed, 10);
        }
        buffer
    }

    /// Whether the packet is a fragment: "more fragments" is set or the
    /// offset is not zero.
    pub fn is_fragmented(&self) -> (r: bool)
        ensures
            r == (self.flags % 2 == 1 || self.fragment_offset != 0),
    {
        let f = self.flags;
        assert((f & 0x01u8 != 0) == (f % 2 == 1)) by (bit_vector);
        (self.flags & 0x01) != 0 || self.fragment_offset != 0
    }
}

/// Law: the flags and the fragment offset share bytes 6 and 7, read in
/// network order: the top three bits of that 16-bit word are the flags and
/// the low thirteen bits the offset. Parsing takes them from there, and
/// serializing flags below 8 and an offset below 8192 puts them there.
pub proof fn lemma_ipv4_flags_fragment_layout(
    h: Ipv4Header,
    checksum: u16,
    s: Seq<u8>,
    parsed: Ipv4Header,
)
    requires
        s.len() >= 20,
        ipv4_header_matches(parsed, s),
    ensures
        parsed.flags == (s[6] * 256 + s[7]) / 8192,
        parsed.fragment_offset == (s[6] * 256 + s[7]) % 8192,
        h.flags < 8 && h.fragment_offset < 8192 ==> ipv4_header_bytes(h, checksum)[6] * 256
            + ipv4_header_bytes(h, checksum)[7] == h.flags * 8192 + h.fragment_offset,
{
    lemma_be16(s[6], s[7]);
    let f: u8 = h.flags;
    let o: u16 = h.fragment_offset;
    let ff: u16 = ((f as u16) << 13u16) | o;
    lemma_u16_bytes(ff);
    let b = ipv4_header_bytes(h, checksum);
    assert(b[6] == u16_bytes(ff)[0] && b[7] == u16_bytes(ff)[1]);
    lemma_be16(u16_bytes(ff)[0], u16_bytes(ff)[1]);
    assert(f < 8 && o < 8192 ==> ff == f as u16 * 8192 + o) by (bit_vector)
        requires
            ff == ((f as u16) << 13u16) | o,
    ;
}

/// Law: a header that fits the wire, serialized with any checksum and
/// followed by any bytes, passes every check of `Ipv4Header::parse` and reads
/// back field for field, with that checksum, leaving the following bytes.
pub proof fn lemma_ipv4_header_roundtrip(h: Ipv4Header, checksum: u16, rest: Seq<u8>, parsed: Ipv4Header)
    requires
        ipv4_header_fits_wire(h),
        ipv4_header_matches(parsed, ipv4_header_bytes(h, checksum) + rest),
    ensures
        ({
            let s = ipv4_header_bytes(h, checksum) + rest;
            &&& s.len() >= 20
            &&& s[0] / 16 == 4
            &&& s[0] % 16 == h.header_length
            &&& s.len() >= 20 + ipv4_options_len(h.header_length)
            &&& s.skip(20 + ipv4_options_len(h.header_length)) == rest
        }),
        parsed.version == h.version,
        parsed.header_length == h.header_length,
        parsed.type_of_service == h.type_of_service,
        parsed.total_length == h.total_length,
        parsed.identification == h.identification,
        parsed.flags == h.flags,
        parsed.fragment_offset == h.fragment_offset,
        parsed.time_to_live == h.time_to_live,
        parsed.protocol == h.protocol,
        parsed.checksum == checksum,
        parsed.source == h.source,
        parsed.destination == h.destination,
        parsed.options@ == h.options@,
{
    let s = ipv4_header_bytes(h, checksum) + rest;
    let v = h.version;
    let hl = h.header_length;
    assert(v == 4 && hl < 16 ==> ((v << 4u8) | hl) / 16 == v && ((v << 4u8) | hl) % 16 == hl)
        by (bit_vector);
    let fl = h.flags;
    let fo = h.fragment_offset;
    let ff = ((fl as u16) << 13u16) | fo;
    assert(fl < 8 && fo < 8192 ==> (((fl as u16) << 13u16) | fo) / 8192 == fl && (((fl as u16)
        << 13u16) | fo) % 8192 == fo) by (bit_vector);
    lemma_u16_bytes(h.total_length);
    lemma_u16_bytes(h.identification);
    lemma_u16_bytes(ff);
    lemma_u16_bytes(checksum);
    lemma_u32_bytes(h.source.0);
    lemma_u32_bytes(h.destination.0);
    assert(s.subrange(12, 16) =~= h.source.octets_spec());
    assert(s.subrange(16, 20) =~= h.destination.octets_spec());
    assert(s.subrange(20, 20 + ipv4_options_len(hl)) =~= h.options@);
    assert(s.skip(20 + ipv4_options_len(hl)) =~= rest);
    assert(s[2] == u16_bytes(h.total_length)[0] && s[3] == u16_bytes(h.total_length)[1]);
    assert(s[4] == u16_bytes(h.identification)[0] && s[5] == u16_bytes(h.identification)[1]);
    assert(s[6] == u16_bytes(ff)[0] && s[7] == u16_bytes(ff)[1]);
    assert(s[10] == u16_bytes(checksum)[0] && s[11] == u16_bytes(checksum)[1]);
}

/// An IPv6 header.
#[derive(Debug, Clone)]
pub struct Ipv6Header {
    pub version: u8,
    pub traffic_class: u8,
    pub flow_label: u32,
    pub payload_length: u16,
    pub next_header: IpProtocol,
    pub hop_limit: u8,
    pub source: Ipv6Address,
    pub destination: Ipv6Address,
}

/// The version that `Ipv6Header::parse` reads from the first word `w`: the
/// eight bits above the flow label, which are the traffic class.
pub open spec fn ipv6_version_read(w: u32) -> u8 {
    ((w / 0x10_0000) % 256) as u8
}

/// Whether `h` holds the fields that the 40 bytes `s` spell.
pub open spec fn ipv6_header_matches(h: Ipv6Header, s: Seq<u8>) -> bool {
    let w = be32(s.take(4));
    &&& h.version == ipv6_version_read(w)
    &&& h.traffic_class == ipv6_version_read(w)
    &&& h.flow_label == w % 0x10_0000
    &&& h.payload_length == be16(s[4], s[5])
    &&& h.next_header == ip_protocol_of(s[6])
    &&& h.hop_limit == s[7]
    &&& h.source == Ipv6Address(be_value(s.subrange(8, 24)) as u128)
    &&& h.destination == Ipv6Address(be_value(s.subrange(24, 40)) as u128)
}

/// The first word of header `h` on the wire.
pub open spec fn ipv6_first_word(h: Ipv6Header) -> u32 {
    ((h.version as u32) << 28u32) | ((h.traffic_class as u32) << 20u32) | h.flow_label
}

/// The 40 bytes of header `h` on the wire.
pub open spec fn ipv6_header_bytes(h: Ipv6Header) -> Seq<u8> {
    u32_bytes(ipv6_first_word(h)) + u16_bytes(h.payload_length) + seq![
        ip_protocol_value(h.next_header),
        h.hop_limit,
    ] + h.source.octets_spec() + h.destination.octets_spec()
}

impl Ipv6Header {
    pub const LENGTH: usize = 40;

    /// A header for a packet from `source` to `destination`: version 6,
    /// hop limit 64, everything else zero.
    pub fn new(source: Ipv6Address, destination: Ipv6Address, next_header: IpProtocol) -> (r: Self)
        ensures
            r.version == 6,
            r.traffic_class == 0,
            r.flow_label == 0,
            r.payload_length == 0,
            r.next_header == next_header,
            r.hop_limit == 64,
            r.source == source,
            r.destination == destination,
    {
        Self {
            version: 6,
            traffic_class: 0,
            flow_label: 0,
            payload_length: 0,
            next_header,
            hop_limit: 64,
            source,
            destination,
        }
    }

    /// Reads a header from the front of `packet`. The version is taken from
    /// the eight bits above the flow label (the traffic class bits), so a
    /// header is accepted only when those bits hold 6.
    pub fn parse(packet: &mut Packet) -> (r: NetResult<Self>)
        ensures
            ({
                let s = old(packet)@;
                &&& s.len() < 40 ==> (r matches Err(NetError::PacketParse(m)) && m@
                    == "IPv6 header too short"@ && final(packet)@ == s)
                &&& s.len() >= 40 && ipv6_version_read(be32(s.take(4))) != 6 ==> (r matches Err(
                    NetError::Protocol { protocol, message },
                ) && protocol@ == "IPv6"@ && message@ == "Invalid version"@ && final(packet)@
                    == s.skip(4))
                &&& s.len() >= 40 && ipv6_version_read(be32(s.take(4))) == 6 ==> (r matches Ok(h)
                    && ipv6_header_matches(h, s) && final(packet)@ == s.skip(40))
            }),
    {
        if packet.len() < Self::LENGTH {
            return Err(NetError::packet_parse("IPv6 header too short"));
        }
        let ghost s = packet@;
        let version_tc_fl = packet.read_u32().unwrap();
        let version = (version_tc_fl >> 20) as u8;
        let traffic_class = ((version_tc_fl >> 20) & 0xFF) as u8;
        let flow_label = version_tc_fl & 0xFFFFF;
        let w = version_tc_fl;
        assert(((w >> 20u32) as u8) == ((w / 0x10_0000) % 256) as u8 && (((w >> 20u32) & 0xFFu32)
            as u8) == ((w / 0x10_0000) % 256) as u8 && w & 0xFFFFFu32 == w % 0x10_0000)
            by (bit_vector);

        if version != 6 {
            return Err(NetError::protocol("IPv6", "Invalid version"));
        }

        let payload_length = packet.read_u16().unwrap();
        let next_header = IpProtocol::from(packet.read_u8().unwrap());
        let hop_limit = packet.read_u8().unwrap();

        let source_bytes = packet.read_bytes(16).unwrap();
        let destination_bytes = packet.read_bytes(16).unwrap();
        let sb = bytes_as_slice(&source_bytes);
        let db = bytes_as_slice(&destination_bytes);
        let source_addr = [
            sb[0], sb[1], sb[2], sb[3], sb[4], sb[5], sb[6], sb[7], sb[8], sb[9], sb[10], sb[11],
            sb[12], sb[13], sb[14], sb[15],
        ];
        let dest_addr = [
            db[0], db[1], db[2], db[3], db[4], db[5], db[6], db[7], db[8], db[9], db[10], db[11],
            db[12], db[13], db[14], db[15],
        ];
        proof {
            assert(source_addr@ =~= s.subrange(8, 24));
            assert(dest_addr@ =~= s.subrange(24, 40));
            assert(packet@ =~= s.skip(40));
        }

        Ok(Ipv6Header {
            version,
            traffic_class,
            flow_label,
            payload_length,
            next_header,
            hop_limit,
            source: Ipv6Address::from_octets(source_addr),
            destination: Ipv6Address::from_octets(dest_addr),
        })
    }

    /// Records `payload_length` (truncated to 16 bits) and returns the
    /// header's 40 bytes.
    pub fn serialize(&mut self, payload_length: usize) -> (r: Vec<u8>)
        ensures
            *final(self) == (Ipv6Header { payload_length: payload_length as u16, ..*old(self) }),
            r@ == ipv6_header_bytes(*final(self)),
            r@.len() == 40,
    {
        self.payload_length = payload_length as u16;

        let mut buffer: Vec<u8> = Vec::with_capacity(Self::LENGTH);

        let version_tc_fl = ((self.version as u32) << 28) | ((self.traffic_class as u32) << 20)
            | self.flow_label;

        extend_bytes(&mut buffer, &u32_to_be(version_tc_fl));
        extend_bytes(&mut buffer, &u16_to_be(self.payload_length));
        buffer.push(u8::from(self.next_header));
        buffer.push(self.hop_limit);
        extend_bytes(&mut buffer, &self.source.octets());
        extend_bytes(&mut buffer, &self.destination.octets());
        assert(buffer@ =~= ipv6_header_bytes(*self));
        proof {
            crate::wire::lemma_be_bytes_len(self.source.0 as nat, 16);
            crate::wire::lemma_be_bytes_len(self.destination.0 as nat, 16);
        }
        buffer
    }
}

/// A header that survives being written and read back: version and traffic
/// class both 6 (the version is read from the traffic class bits), a flow
/// label within 20 bits and a canonical protocol.
pub open spec fn ipv6_header_fits_wire(h: Ipv6Header) -> bool {
    &&& h.version == 6
    &&& h.traffic_class == 6
    &&& h.flow_label < 0x10_0000
    &&& is_canonical_ip_protocol(h.next_header)
}

/// Law: on the wire the source address's sixteen octets are bytes 8 to 24
/// and the destination's bytes 24 to 40 (RFC 8200). Serializing puts them
/// there, and parsing takes them from there.
pub proof fn lemma_ipv6_address_layout(h: Ipv6Header, s: Seq<u8>, parsed: Ipv6Header)
    requires
        s.len() >= 40,
        ipv6_header_matches(parsed, s),
    ensures
        ipv6_header_bytes(h).len() == 40,
        ipv6_header_bytes(h).subrange(8, 24) == h.source.octets_spec(),
        ipv6_header_bytes(h).subrange(24, 40) == h.destination.octets_spec(),
        parsed.source.octets_spec() == s.subrange(8, 24),
        parsed.destination.octets_spec() == s.subrange(24, 40),
{
    crate::addr::lemma_ipv6_octets_value(h.source);
    crate::addr::lemma_ipv6_octets_value(h.destination);
    lemma_u32_bytes(ipv6_first_word(h));
    lemma_u16_bytes(h.payload_length);
    let b = ipv6_header_bytes(h);
    assert(b.subrange(8, 24) =~= h.source.octets_spec());
    assert(b.subrange(24, 40) =~= h.destination.octets_spec());
    crate::addr::lemma_pow256_16();
    let src = s.subrange(8, 24);
    let dst = s.subrange(24, 40);
    crate::wire::lemma_be_value_bound(src);
    crate::wire::lemma_be_value_bound(dst);
    crate::wire::lemma_be_bytes_of_value(src);
    crate::wire::lemma_be_bytes_of_value(dst);
}

/// Law: a header that fits the wire, serialized and followed by any bytes,
/// passes the checks of `Ipv6Header::parse` and reads back field for field,
/// leaving the following bytes.
pub proof fn lemma_ipv6_header_roundtrip(h: Ipv6Header, rest: Seq<u8>, parsed: Ipv6Header)
    requires
        ipv6_header_fits_wire(h),
        ipv6_header_matches(parsed, ipv6_header_bytes(h) + rest),
    ensures
        (ipv6_header_bytes(h) + rest).len() >= 40,
        ipv6_version_read(be32((ipv6_header_bytes(h) + rest).take(4))) == 6,
        (ipv6_header_bytes(h) + rest).skip(40) == rest,
        parsed == h,
{
    let s = ipv6_header_bytes(h) + rest;
    let w = ipv6_first_word(h);
    crate::addr::lemma_ipv6_octets_value(h.source);
    crate::addr::lemma_ipv6_octets_value(h.destination);
    assert(s.len() >= 40);
    assert(be32(s.take(4)) == w) by {
        lemma_u32_bytes(w);
        assert(s.take(4) =~= u32_bytes(w));
    }
    assert(ipv6_version_read(w) == 6 && w % 0x10_0000 == h.flow_label) by {
        lemma_ipv6_first_word(h.version, h.traffic_class, h.flow_label);
    }
    assert(be16(s[4], s[5]) == h.payload_length) by {
        lemma_u16_bytes(h.payload_length);
        assert(s[4] == u16_bytes(h.payload_length)[0] && s[5] == u16_bytes(h.payload_length)[1]);
    }
    assert(s[6] == ip_protocol_value(h.next_header) && s[7] == h.hop_limit);
    assert(s.subrange(8, 24) =~= h.source.octets_spec());
    assert(s.subrange(24, 40) =~= h.destination.octets_spec());
    assert(s.skip(40) =~= rest);
}

proof fn lemma_ipv6_first_word(v: u8, tc: u8, fl: u32)
    requires
        v == 6,
        tc == 6,
        fl < 0x10_0000,
    ensures
        ((((v as u32) << 28u32) | ((tc as u32) << 20u32) | fl) / 0x10_0000) % 256 == 6,
        (((v as u32) << 28u32) | ((tc as u32) << 20u32) | fl) % 0x10_0000 == fl,
{
    assert(v == 6 && tc == 6 && fl < 0x10_0000 ==> ((((v as u32) << 28u32) | ((tc as u32)
        << 20u32) | fl) / 0x10_0000) % 256 == 6 && (((v as u32) << 28u32) | ((tc as u32) << 20u32)
        | fl) % 0x10_0000 == fl) by (bit_vector);
}

/// An IP packet: a header and its payload.
#[allow(inconsistent_fields)]
#[derive(Debug, Clone)]
pub enum IpPacket {
    V4 { header: Ipv4Header, payload: Packet },
    V6 { header: Ipv6Header, payload: Packet },
}

impl IpPacket {
    /// Reads an IPv4 packet: a header, then everything after it as payload.
    pub fn parse_v4(packet: Packet) -> (r: NetResult<Self>)
        ensures
            ({
                let s = packet@;
                let options_end = 20 + ipv4_options_len(s[0] % 16);
                let accepted = s.len() >= 20 && s[0] / 16 == 4 && s[0] % 16 >= 5 && s.len()
                    >= options_end;
                &&& accepted ==> (r matches Ok(IpPacket::V4 { header, payload })
                    && ipv4_header_matches(header, s) && payload@ == s.skip(options_end))
                &&& !accepted ==> r is Err
                &&& s.len() < 20 ==> (r matches Err(NetError::PacketParse(m)) && m@
                    == "IPv4 header too short"@)
            }),
    {
        let mut packet = packet;
        let header = Ipv4Header::parse(&mut packet)?;
        Ok(IpPacket::V4 { header, payload: packet })
    }

    /// Reads an IPv6 packet: a header, then everything after it as payload.
    pub fn parse_v6(packet: Packet) -> (r: NetResult<Self>)
        ensures
            ({
                let s = packet@;
                let accepted = s.len() >= 40 && ipv6_version_read(be32(s.take(4))) == 6;
                &&& accepted ==> (r matches Ok(IpPacket::V6 { header, payload })
                    && ipv6_header_matches(header, s) && payload@ == s.skip(40))
                &&& !accepted ==> r is Err
                &&& s.len() < 40 ==> (r matches Err(NetError::PacketParse(m)) && m@
                    == "IPv6 header too short"@)
            }),
    {
        let mut packet = packet;
        let header = Ipv6Header::parse(&mut packet)?;
        Ok(IpPacket::V6 { header, payload: packet })
    }

    /// The protocol of the payload.
    pub fn protocol(&self) -> (r: IpProtocol)
        ensures
            r == match self {
                IpPacket::V4 { header, .. } => header.protocol,
                IpPacket::V6 { header, .. } => header.next_header,
            },
    {
        match self {
            IpPacket::V4 { header, .. } => header.protocol,
            IpPacket::V6 { header, .. } => header.next_header,
        }
    }

    /// The payload.
    pub fn payload(&self) -> (r: &Packet)
        ensures
            r == match self {
                IpPacket::V4 { payload, .. } => payload,
                IpPacket::V6 { payload, .. } => payload,
            },
    {
        match self {
            IpPacket::V4 { payload, .. } => payload,
            IpPacket::V6 { payload, .. } => payload,
        }
    }

    /// The packet's bytes: the header (with lengths and, for IPv4, the
    /// checksum filled in), then the payload.
    pub fn serialize(&mut self) -> (r: Packet)
        requires
            match *old(self) {
                IpPacket::V4 { header, payload } => {
                    &&& header.header_length * 4 + payload@.len() <= usize::MAX
                    &&& word_sum(ipv4_header_bytes(ipv4_with_total_length(header, payload@.len() as usize), 0))
                        <= u32::MAX
                    &&& 20 + header.options@.len() + payload@.len() <= bytes_mut_limit()
                },
                IpPacket::V6 { header, payload } => 40 + payload@.len() <= bytes_mut_limit(),
            },
        ensures
            match (*old(self), *final(self)) {
                (IpPacket::V4 { header: h0, payload: p0 }, IpPacket::V4 { header: h1, payload: p1 }) => {
                    &&& h1 == ipv4_with_total_length(h0, p0@.len() as usize)
                    &&& p1 == p0
                    &&& r@ == ipv4_header_bytes(h1, checksum_of(ipv4_header_bytes(h1, 0))) + p0@
                },
                (IpPacket::V6 { header: h0, payload: p0 }, IpPacket::V6 { header: h1, payload: p1 }) => {
                    &&& h1 == (Ipv6Header { payload_length: p0@.len() as u16, ..h0 })
                    &&& p1 == p0
                    &&& r@ == ipv6_header_bytes(h1) + p0@
                },
                _ => false,
            },
    {
        match self {
            IpPacket::V4 { header, payload } => {
                let header_bytes = header.serialize(payload.len());
                let mut builder = PacketBuilder::with_capacity(header_bytes.len() + payload.len());
                builder.write_bytes(header_bytes.as_slice());
                builder.write_bytes(payload.as_slice());
                builder.build()
            },
            IpPacket::V6 { header, payload } => {
                let header_bytes = header.serialize(payload.len());
                let mut builder = PacketBuilder::with_capacity(header_bytes.len() + payload.len());
                builder.write_bytes(header_bytes.as_slice());
                builder.write_bytes(payload.as_slice());
                builder.build()
            },
        }
    }
}

} // verus!
