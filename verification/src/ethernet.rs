//! Ethernet: MAC addresses, EtherTypes, frame headers and frames.
use vstd::prelude::*;
use vstd::string::{StringExecFns, StringSliceAdditionalSpecFns};

use crate::error::{NetError, NetResult};
use crate::packet::{Packet, PacketBuilder};
use crate::buffer::bytes_mut_limit;
use crate::wire::{be16, lemma_be16, lemma_u16_bytes, u16_bytes};

verus! {

/// Ethernet frame types.
#[derive(Debug, Clone, Copy, PartialEq, Eq, Structural)]
pub enum EtherType {
    Ipv4,
    Ipv6,
    Arp,
    Unknown(u16),
}

/// The EtherType that the number `value` names.
pub open spec fn ether_type_of(value: u16) -> EtherType {
    if value == 0x0800 {
        EtherType::Ipv4
    } else if value == 0x86DD {
        EtherType::Ipv6
    } else if value == 0x0806 {
        EtherType::Arp
    } else {
        EtherType::Unknown(value)
    }
}

/// The number of an EtherType.
pub open spec fn ether_type_value(t: EtherType) -> u16 {
    match t {
        EtherType::Ipv4 => 0x0800,
        EtherType::Ipv6 => 0x86DD,
        EtherType::Arp => 0x0806,
        EtherType::Unknown(value) => value,
    }
}

/// An EtherType in the form that reading its number produces: `Unknown`
/// never holds the number of a named type.
pub open spec fn is_canonical_ether_type(t: EtherType) -> bool {
    ether_type_of(ether_type_value(t)) == t
}

impl From<u16> for EtherType {
    fn from(value: u16) -> (r: Self) {
        match value {
            0x0800 => EtherType::Ipv4,
            0x86DD => EtherType::Ipv6,
            0x0806 => EtherType::Arp,
            other => EtherType::Unknown(other),
        }
    }
}

impl vstd::std_specs::convert::FromSpecImpl<u16> for EtherType {
    open spec fn obeys_from_spec() -> bool {
        true
    }

    open spec fn from_spec(value: u16) -> EtherType {
        ether_type_of(value)
    }
}

impl From<EtherType> for u16 {
    fn from(ether_type: EtherType) -> (r: Self) {
        match ether_type {
            EtherType::Ipv4 => 0x0800,
            EtherType::Ipv6 => 0x86DD,
            EtherType::Arp => 0x0806,
            EtherType::Unknown(value) => value,
        }
    }
}

impl vstd::std_specs::convert::FromSpecImpl<EtherType> for u16 {
    open spec fn obeys_from_spec() -> bool {
        true
    }

    open spec fn from_spec(t: EtherType) -> u16 {
        ether_type_value(t)
    }
}

/// Law: reading a number as an EtherType and writing it back gives the
/// number back, for every number.
pub proof fn lemma_ether_type_value_of(value: u16)
    ensures
        ether_type_value(ether_type_of(value)) == value,
{
}

/// Law: writing an EtherType as a number and reading it back gives the type
/// back exactly when the type is canonical; `Unknown(0x0800)` comes back as
/// `Ipv4`.
pub proof fn lemma_ether_type_of_value(t: EtherType)
    ensures
        ether_type_of(ether_type_value(t)) == t <==> is_canonical_ether_type(t),
        is_canonical_ether_type(t) <==> !(t matches EtherType::Unknown(v) && (v == 0x0800 || v
            == 0x86DD || v == 0x0806)),
{
}

/// A MAC address: six bytes.
#[derive(Debug, Clone, Copy)]
pub struct MacAddress([u8; 6]);

impl View for MacAddress {
    type V = Seq<u8>;

    closed spec fn view(&self) -> Seq<u8> {
        self.0@
    }
}

impl PartialEq for MacAddress {
    fn eq(&self, other: &MacAddress) -> (r: bool) {
        let a = &self.0;
        let b = &other.0;
        let r = a[0] == b[0] && a[1] == b[1] && a[2] == b[2] && a[3] == b[3] && a[4] == b[4] && a[5]
            == b[5];
        proof {
            if r {
                assert(a@ =~= b@);
            }
        }
        r
    }
}

impl vstd::std_specs::cmp::PartialEqSpecImpl for MacAddress {
    open spec fn obeys_eq_spec() -> bool {
        true
    }

    open spec fn eq_spec(&self, other: &MacAddress) -> bool {
        self@ == other@
    }
}

impl Eq for MacAddress {

}

/// The six bytes `FF:FF:FF:FF:FF:FF`.
pub open spec fn broadcast_bytes() -> Seq<u8> {
    seq![0xFFu8, 0xFF, 0xFF, 0xFF, 0xFF, 0xFF]
}

/// The character of a hexadecimal digit, lower case.
pub open spec fn lower_hex_char(d: u8) -> char {
    if d < 10 {
        (('0' as u8) + d) as char
    } else {
        (('a' as u8) + d - 10) as char
    }
}

/// The byte `b` as two lower-case hexadecimal digits.
pub open spec fn hex_pair(b: u8) -> Seq<char> {
    seq![lower_hex_char(b / 16), lower_hex_char(b % 16)]
}

/// Six bytes as `xx:xx:xx:xx:xx:xx` in lower-case hexadecimal.
pub open spec fn colon_hex(b: Seq<u8>) -> Seq<char> {
    hex_pair(b[0]) + seq![':'] + hex_pair(b[1]) + seq![':'] + hex_pair(b[2]) + seq![':']
        + hex_pair(b[3]) + seq![':'] + hex_pair(b[4]) + seq![':'] + hex_pair(b[5])
}

/// The lower-case hexadecimal digit of `d` as a one-character text.
fn lower_hex_digit(d: u8) -> (r: &'static str)
    requires
        d < 16,
    ensures
        r@ == seq![lower_hex_char(d)],
{
    if d == 0 {
        proof {
            reveal_strlit("0");
        }
        "0"
    } else if d == 1 {
        proof {
            reveal_strlit("1");
        }
        "1"
    } else if d == 2 {
        proof {
            reveal_strlit("2");
        }
        "2"
    } else if d == 3 {
        proof {
            reveal_strlit("3");
        }
        "3"
    } else if d == 4 {
        proof {
            reveal_strlit("4");
        }
        "4"
    } else if d == 5 {
        proof {
            reveal_strlit("5");
        }
        "5"
    } else if d == 6 {
        proof {
            reveal_strlit("6");
        }
        "6"
    } else if d == 7 {
        proof {
            reveal_strlit("7");
        }
        "7"
    } else if d == 8 {
        proof {
            reveal_strlit("8");
        }
        "8"
    } else if d == 9 {
        proof {
            reveal_strlit("9");
        }
        "9"
    } else if d == 10 {
        proof {
            reveal_strlit("a");
        }
        "a"
    } else if d == 11 {
        proof {
            reveal_strlit("b");
        }
        "b"
    } else if d == 12 {
        proof {
            reveal_strlit("c");
        }
        "c"
    } else if d == 13 {
        proof {
            reveal_strlit("d");
        }
        "d"
    } else if d == 14 {
        proof {
            reveal_strlit("e");
        }
        "e"
    } else {
        proof {
            reveal_strlit("f");
        }
        "f"
    }
}

/// Appends the two lower-case hexadecimal digits of `b` to `s`.
fn push_hex_pair(s: &mut String, b: u8)
    ensures
        final(s)@ == old(s)@ + hex_pair(b),
{
    s.append(lower_hex_digit(b / 16));
    s.append(lower_hex_digit(b % 16));
    assert(s@ =~= old(s)@ + hex_pair(b));
}

/// Six bytes as `xx:xx:xx:xx:xx:xx`, each as two lower-case hexadecimal
/// digits.
fn format_colon_hex(b: [u8; 6]) -> (r: String)
    ensures
        r@ == colon_hex(b@),
{
    proof {
        reveal_strlit(":");
    }
    let mut r = String::new();
    push_hex_pair(&mut r, b[0]);
    r.append(":");
    push_hex_pair(&mut r, b[1]);
    r.append(":");
    push_hex_pair(&mut r, b[2]);
    r.append(":");
    push_hex_pair(&mut r, b[3]);
    r.append(":");
    push_hex_pair(&mut r, b[4]);
    r.append(":");
    push_hex_pair(&mut r, b[5]);
    assert(r@ =~= colon_hex(b@));
    r
}

impl MacAddress {
    /// The broadcast address `FF:FF:FF:FF:FF:FF`.
    pub fn broadcast() -> (r: MacAddress)
        ensures
            r@ == broadcast_bytes(),
    {
        let r = MacAddress([0xFF; 6]);
        assert(r@ =~= broadcast_bytes());
        r
    }

    /// The all-zero address.
    pub fn zero() -> (r: MacAddress)
        ensures
            r@ == seq![0u8, 0, 0, 0, 0, 0],
    {
        let r = MacAddress([0x00; 6]);
        assert(r@ =~= seq![0u8, 0, 0, 0, 0, 0]);
        r
    }

    /// The address made of `bytes`.
    pub fn new(bytes: [u8; 6]) -> (r: MacAddress)
        ensures
            r@ == bytes@,
    {
        MacAddress(bytes)
    }

    /// The address made of `bytes`; fails unless there are exactly six.
    pub fn from_bytes(bytes: &[u8]) -> (r: NetResult<MacAddress>)
        ensures
            bytes@.len() != 6 ==> (r matches Err(NetError::PacketParse(m)) && m@
                == "invalid MAC address length"@),
            bytes@.len() == 6 ==> (r matches Ok(a) && a@ == bytes@),
    {
        if bytes.len() != 6 {
            return Err(NetError::packet_parse("invalid MAC address length"));
        }
        let addr = [bytes[0], bytes[1], bytes[2], bytes[3], bytes[4], bytes[5]];
        assert(addr@ =~= bytes@);
        Ok(MacAddress(addr))
    }

    /// The six bytes.
    pub fn as_bytes(&self) -> (r: &[u8; 6])
        ensures
            r@ == self@,
    {
        &self.0
    }

    /// Whether this is the broadcast address.
    pub fn is_broadcast(&self) -> (r: bool)
        ensures
            r == (self@ == broadcast_bytes()),
    {
        let r = *self == Self::broadcast();
        proof {
            if self@ == broadcast_bytes() {
                assert(self@ =~= broadcast_bytes());
            }
        }
        r
    }

    /// Whether the group bit (lowest bit of the first byte) is set.
    pub fn is_multicast(&self) -> (r: bool)
        ensures
            r == (self@[0] % 2 == 1),
    {
        let b = self.0[0];
        assert((b & 0x01 != 0) == (b % 2 == 1)) by (bit_vector);
        b & 0x01 != 0
    }

    /// Whether the group bit is clear.
    pub fn is_unicast(&self) -> (r: bool)
        ensures
            r == (self@[0] % 2 == 0),
    {
        !self.is_multicast()
    }

    /// The text form: the first byte in two lower-case hexadecimal digits,
    /// written six times and separated by colons.
    pub fn to_display_string(&self) -> (r: String)
        ensures
            r@ == colon_hex(seq![self@[0], self@[0], self@[0], self@[0], self@[0], self@[0]]),
    {
        let b = self.0[0];
        let r = format_colon_hex([b, b, b, b, b, b]);
        assert([b, b, b, b, b, b]@ =~= seq![b, b, b, b, b, b]);
        r
    }
}

/// An Ethernet frame header.
#[derive(Debug, Clone)]
pub struct EthernetHeader {
    pub destination: MacAddress,
    pub source: MacAddress,
    pub ether_type: EtherType,
}

/// The 14 bytes of a header on the wire.
pub open spec fn ethernet_header_bytes(h: EthernetHeader) -> Seq<u8> {
    h.destination@ + h.source@ + u16_bytes(ether_type_value(h.ether_type))
}

/// The header fields that bytes `s` (at least 14 of them) spell.
pub open spec fn ethernet_header_fields(s: Seq<u8>) -> (Seq<u8>, Seq<u8>, EtherType) {
    (s.subrange(0, 6), s.subrange(6, 12), ether_type_of(be16(s[12], s[13])))
}

impl EthernetHeader {
    /// Length of a header on the wire.
    pub const LENGTH: usize = 14;

    /// A header with the given fields.
    pub fn new(destination: MacAddress, source: MacAddress, ether_type: EtherType) -> (r: Self)
        ensures
            r.destination == destination,
            r.source == source,
            r.ether_type == ether_type,
    {
        Self { destination, source, ether_type }
    }

    /// Reads a header from the front of `packet`.
    pub fn parse(packet: &mut Packet) -> (r: NetResult<Self>)
        ensures
            old(packet)@.len() < 14 ==> (r matches Err(NetError::PacketParse(m)) && m@
                == "ethernet frame too short"@ && final(packet)@ == old(packet)@),
            old(packet)@.len() >= 14 ==> (r matches Ok(h) && (h.destination@, h.source@, h.ether_type)
                == ethernet_header_fields(old(packet)@) && final(packet)@ == old(packet)@.skip(14)),
    {
        if packet.len() < Self::LENGTH {
            return Err(NetError::packet_parse("ethernet frame too short"));
        }
        let ghost s = packet@;
        let dest_bytes = packet.read_bytes(6).unwrap();
        let src_bytes = packet.read_bytes(6).unwrap();
        let ether_type = packet.read_u16().unwrap();
        let destination = MacAddress::from_bytes(crate::buffer::bytes_as_slice(&dest_bytes)).unwrap();
        let source = MacAddress::from_bytes(crate::buffer::bytes_as_slice(&src_bytes)).unwrap();
        proof {
            assert(s.skip(6).take(6) =~= s.subrange(6, 12));
            assert(s.skip(6).skip(6) =~= s.skip(12));
            assert(s.skip(12).skip(2) =~= s.skip(14));
        }
        Ok(EthernetHeader { destination, source, ether_type: EtherType::from(ether_type) })
    }

    /// Appends the header to `builder`.
    pub fn serialize(&self, builder: &mut PacketBuilder)
        requires
            old(builder)@.len() + 14 <= bytes_mut_limit(),
        ensures
            final(builder)@ == old(builder)@ + ethernet_header_bytes(*self),
    {
        proof {
            lemma_mac_len(self.destination);
            lemma_mac_len(self.source);
        }
        builder.write_bytes(self.destination.as_bytes());
        builder.write_bytes(self.source.as_bytes());
        builder.write_u16(u16::from(self.ether_type));
        assert(builder@ =~= old(builder)@ + ethernet_header_bytes(*self));
    }
}

/// Every MAC address has six bytes.
pub proof fn lemma_mac_len(m: MacAddress)
    ensures
        m@.len() == 6,
{
}

/// Law: a serialized header, followed by any bytes, reads back as the same
/// header (when its EtherType is canonical), leaving the following bytes.
pub proof fn lemma_ethernet_header_roundtrip(h: EthernetHeader, rest: Seq<u8>)
    requires
        is_canonical_ether_type(h.ether_type),
    ensures
        (ethernet_header_bytes(h) + rest).len() >= 14,
        ethernet_header_fields(ethernet_header_bytes(h) + rest) == (
            h.destination@,
            h.source@,
            h.ether_type,
        ),
        (ethernet_header_bytes(h) + rest).skip(14) == rest,
{
    lemma_mac_len(h.destination);
    lemma_mac_len(h.source);
    let v = ether_type_value(h.ether_type);
    lemma_u16_bytes(v);
    let s = ethernet_header_bytes(h) + rest;
    assert(s.subrange(0, 6) =~= h.destination@);
    assert(s.subrange(6, 12) =~= h.source@);
    assert(s[12] == u16_bytes(v)[0] && s[13] == u16_bytes(v)[1]);
    assert(s.skip(14) =~= rest);
}

/// An Ethernet frame: a header and its payload.
#[derive(Debug, Clone)]
pub struct EthernetFrame {
    pub header: EthernetHeader,
    pub payload: Packet,
}

impl EthernetFrame {
    /// A frame with the given header and payload.
    pub fn new(header: EthernetHeader, payload: Packet) -> (r: Self)
        ensures
            r.header == header,
            r.payload == payload,
    {
        Self { header, payload }
    }

    /// Reads a frame: a header, then everything after it as payload.
    pub fn parse(packet: Packet) -> (r: NetResult<Self>)
        ensures
            packet@.len() < 14 ==> (r matches Err(NetError::PacketParse(m)) && m@
                == "ethernet frame too short"@),
            packet@.len() >= 14 ==> (r matches Ok(f) && (
                f.header.destination@,
                f.header.source@,
                f.header.ether_type,
            ) == ethernet_header_fields(packet@) && f.payload@ == packet@.skip(14)),
    {
        let mut packet = packet;
        let header = EthernetHeader::parse(&mut packet)?;
        Ok(EthernetFrame { header, payload: packet })
    }

    /// The frame's bytes: the header, then the payload.
    pub fn serialize(&self) -> (r: Packet)
        requires
            self.payload@.len() + 14 <= bytes_mut_limit(),
        ensures
            r@ == ethernet_header_bytes(self.header) + self.payload@,
    {
        let mut builder = PacketBuilder::with_capacity(EthernetHeader::LENGTH + self.payload.len());
        self.header.serialize(&mut builder);
        builder.write_bytes(self.payload.as_slice());
        builder.build()
    }
}

/// The parts of the bytes `s` between colons, in order (`a::b` has an empty
/// middle part; no colon gives one part).
pub open spec fn split_colons(s: Seq<u8>) -> Seq<Seq<u8>>
    decreases s.len(),
{
    if s.len() == 0 {
        seq![Seq::empty()]
    } else {
        let parts = split_colons(s.drop_last());
        if s.last() == 0x3A {
            parts.push(Seq::empty())
        } else {
            parts.update(parts.len() - 1, parts.last().push(s.last()))
        }
    }
}

pub proof fn lemma_split_colons_len(s: Seq<u8>)
    ensures
        split_colons(s).len() >= 1,
    decreases s.len(),
{
    if s.len() > 0 {
        lemma_split_colons_len(s.drop_last());
    }
}

/// The value of a hexadecimal digit (either case).
pub open spec fn hex_digit_value(c: u8) -> Option<nat> {
    if 0x30 <= c <= 0x39 {
        Some((c - 0x30) as nat)
    } else if 0x61 <= c <= 0x66 {
        Some((c - 0x61 + 10) as nat)
    } else if 0x41 <= c <= 0x46 {
        Some((c - 0x41 + 10) as nat)
    } else {
        None
    }
}

/// Every byte of `d` is a hexadecimal digit.
pub open spec fn all_hex(d: Seq<u8>) -> bool {
    forall|i: int| 0 <= i < d.len() ==> #[trigger] hex_digit_value(d[i]) is Some
}

/// The number that the hexadecimal digits `d` spell.
pub open spec fn hex_value(d: Seq<u8>) -> nat
    decreases d.len(),
{
    if d.len() == 0 {
        0
    } else {
        hex_value(d.drop_last()) * 16 + hex_digit_value(d.last()).unwrap()
    }
}

/// What `u8::from_str_radix(p, 16)` gives for the bytes `p`: an optional
/// leading `+`, then at least one hexadecimal digit, with a value below 256.
pub open spec fn parse_hex_u8(p: Seq<u8>) -> Option<u8> {
    let digits = if p.len() > 0 && p[0] == 0x2B {
        p.skip(1)
    } else {
        p
    };
    if digits.len() > 0 && all_hex(digits) && hex_value(digits) <= 255 {
        Some(hex_value(digits) as u8)
    } else {
        None
    }
}

/// Law: every hexadecimal digit counts. A part made of one digit twice
/// parses (as `u8::from_str_radix(part, 16)` does) to 17 times the digit's
/// value: `0`-`9` are worth 0 to 9, `a`-`f` and `A`-`F` 10 to 15; any other
/// byte twice is refused. And the two lower-case hexadecimal digits of any
/// byte parse back to that byte.
pub proof fn lemma_hex_parts(c: u8, b: u8)
    ensures
        0x30 <= c <= 0x39 ==> parse_hex_u8(seq![c, c]) == Some((17 * (c - 0x30)) as u8),
        0x61 <= c <= 0x66 ==> parse_hex_u8(seq![c, c]) == Some((17 * (c - 0x61 + 10)) as u8),
        0x41 <= c <= 0x46 ==> parse_hex_u8(seq![c, c]) == Some((17 * (c - 0x41 + 10)) as u8),
        !(0x30 <= c <= 0x39 || 0x61 <= c <= 0x66 || 0x41 <= c <= 0x46) ==> parse_hex_u8(
            seq![c, c],
        ) is None,
        parse_hex_u8(
            seq![
                (if b / 16 < 10 { 0x30 + b / 16 } else { 0x61 + b / 16 - 10 }) as u8,
                (if b % 16 < 10 { 0x30 + b % 16 } else { 0x61 + b % 16 - 10 }) as u8,
            ],
        ) == Some(b),
{
    reveal_with_fuel(hex_value, 3);
    let p = seq![c, c];
    assert(p.drop_last() =~= seq![c]);
    assert(seq![c].drop_last() =~= Seq::<u8>::empty());
    if c == 0x2B {
        assert(p.skip(1) =~= seq![c]);
        assert(!all_hex(p.skip(1))) by {
            assert(hex_digit_value(p.skip(1)[0]) is None);
        }
    }
    if !(0x30 <= c <= 0x39 || 0x61 <= c <= 0x66 || 0x41 <= c <= 0x46) && c != 0x2B {
        assert(hex_digit_value(p[0]) is None);
    }
    let hi: u8 = (if b / 16 < 10 { 0x30 + b / 16 } else { 0x61 + b / 16 - 10 }) as u8;
    let lo: u8 = (if b % 16 < 10 { 0x30 + b % 16 } else { 0x61 + b % 16 - 10 }) as u8;
    let q = seq![hi, lo];
    assert(q.drop_last() =~= seq![hi]);
    assert(seq![hi].drop_last() =~= Seq::<u8>::empty());
    assert(hex_digit_value(hi) == Some((b / 16) as nat));
    assert(hex_digit_value(lo) == Some((b % 16) as nat));
    assert(all_hex(q)) by {
        assert forall|i: int| 0 <= i < q.len() implies #[trigger] hex_digit_value(q[i]) is Some by {
            if i == 0 {
                assert(q[i] == hi);
            } else {
                assert(q[i] == lo);
            }
        }
    }
    assert(hex_value(q) == (b / 16) * 16 + b % 16);
}

proof fn lemma_hex_value_prefix(d: Seq<u8>, i: int)
    requires
        0 <= i <= d.len(),
    ensures
        hex_value(d.take(i)) <= hex_value(d),
    decreases d.len(),
{
    if i < d.len() {
        assert(d.drop_last().take(i) =~= d.take(i));
        lemma_hex_value_prefix(d.drop_last(), i);
    } else {
        assert(d.take(i) =~= d);
    }
}

/// Splits the bytes `s` at colons.
fn split_at_colons(s: &[u8]) -> (r: Vec<Vec<u8>>)
    ensures
        r@.map_values(|v: Vec<u8>| v@) == split_colons(s@),
{
    let mut parts: Vec<Vec<u8>> = Vec::new();
    parts.push(Vec::new());
    let mut i: usize = 0;
    proof {
        assert(s@.take(0) =~= Seq::<u8>::empty());
        assert(parts@.map_values(|v: Vec<u8>| v@) =~= split_colons(s@.take(0)));
    }
    while i < s.len()
        invariant
            i <= s@.len(),
            parts@.len() >= 1,
            parts@.map_values(|v: Vec<u8>| v@) == split_colons(s@.take(i as int)),
        decreases s@.len() - i,
    {
        proof {
            assert(s@.take(i + 1).drop_last() =~= s@.take(i as int));
        }
        let ghost before = parts@.map_values(|v: Vec<u8>| v@);
        if s[i] == 0x3A {
            parts.push(Vec::new());
            proof {
                assert(parts@.map_values(|v: Vec<u8>| v@) =~= before.push(Seq::empty()));
            }
        } else {
            let mut last = parts.pop().unwrap();
            last.push(s[i]);
            parts.push(last);
            proof {
                assert(parts@.map_values(|v: Vec<u8>| v@) =~= before.update(
                    before.len() - 1,
                    before.last().push(s@[i as int]),
                ));
            }
        }
        i = i + 1;
    }
    proof {
        assert(s@.take(i as int) =~= s@);
    }
    parts
}

/// `u8::from_str_radix(part, 16)` on the bytes `part` (see `parse_hex_u8`).
fn hex_u8(part: &[u8]) -> (r: Option<u8>)
    ensures
        r == parse_hex_u8(part@),
{
    let start: usize = if part.len() > 0 && part[0] == 0x2B {
        1
    } else {
        0
    };
    let ghost digits = part@.skip(start as int);
    assert(digits =~= (if part@.len() > 0 && part@[0] == 0x2B {
        part@.skip(1)
    } else {
        part@
    }));
    if start >= part.len() {
        return None;
    }
    let mut value: u32 = 0;
    let mut i: usize = start;
    while i < part.len()
        invariant
            start <= i <= part@.len(),
            start < part@.len(),
            digits == part@.skip(start as int),
            digits == (if part@.len() > 0 && part@[0] == 0x2B {
                part@.skip(1)
            } else {
                part@
            }),
            all_hex(digits.take(i - start)),
            value == hex_value(digits.take(i - start)),
            value <= 255,
        decreases part@.len() - i,
    {
        let c = part[i];
        proof {
            assert(digits.take(i - start + 1).drop_last() =~= digits.take(i - start));
            assert(digits[i - start] == c);
        }
        let d: u32 = if 0x30 <= c && c <= 0x39 {
            (c - 0x30) as u32
        } else if 0x61 <= c && c <= 0x66 {
            (c - 0x61 + 10) as u32
        } else if 0x41 <= c && c <= 0x46 {
            (c - 0x41 + 10) as u32
        } else {
            assert(hex_digit_value(digits[i - start]) is None);
            assert(!all_hex(digits));
            return None;
        };
        value = value * 16 + d;
        i = i + 1;
        if value > 255 {
            proof {
                lemma_hex_value_prefix(digits, i - start);
            }
            return None;
        }
    }
    proof {
        assert(digits.take(i - start) =~= digits);
    }
    Some(value as u8)
}

/// How a text (as UTF-8 bytes) fares as a MAC address for
/// `validate_mac_address`.
pub enum MacTextVerdict {
    Valid,
    WrongPartCount,
    WrongPartLength,
    BadHex,
}

/// The verdict on the parts from position `i` on: the first part that is
/// not two bytes long, or not a hexadecimal byte, decides.
pub open spec fn check_mac_parts(parts: Seq<Seq<u8>>, i: int) -> MacTextVerdict
    decreases parts.len() - i,
{
    if i < 0 || i >= parts.len() {
        MacTextVerdict::Valid
    } else if parts[i].len() != 2 {
        MacTextVerdict::WrongPartLength
    } else if parse_hex_u8(parts[i]) is None {
        MacTextVerdict::BadHex
    } else {
        check_mac_parts(parts, i + 1)
    }
}

/// The verdict on the bytes `s`: six colon-separated parts, each two bytes
/// forming a hexadecimal byte.
pub open spec fn mac_text_verdict(s: Seq<u8>) -> MacTextVerdict {
    let parts = split_colons(s);
    if parts.len() != 6 {
        MacTextVerdict::WrongPartCount
    } else {
        check_mac_parts(parts, 0)
    }
}

/// The checks of `validate_mac_address`, on the UTF-8 bytes of the text.
pub(crate) fn validate_mac_bytes(mac: &[u8]) -> (r: NetResult<()>)
    ensures
        match mac_text_verdict(mac@) {
            MacTextVerdict::Valid => r is Ok,
            MacTextVerdict::WrongPartCount => r matches Err(NetError::InvalidAddress(m)) && m@
                == "MAC address must have 6 parts"@,
            MacTextVerdict::WrongPartLength => r matches Err(NetError::InvalidAddress(m)) && m@
                == "each MAC address part msut be 2 chars"@,
            MacTextVerdict::BadHex => r matches Err(NetError::InvalidAddress(m)) && m@
                == "Invalid hexadecimal in MAC addr"@,
        },
{
    let parts = split_at_colons(mac);
    let ghost views = parts@.map_values(|v: Vec<u8>| v@);

    if parts.len() != 6 {
        return Err(NetError::InvalidAddress(String::from_str("MAC address must have 6 parts")));
    }

    let mut i: usize = 0;
    while i < parts.len()
        invariant
            views == parts@.map_values(|v: Vec<u8>| v@),
            views == split_colons(mac@),
            views.len() == 6,
            i <= 6,
            check_mac_parts(views, 0) == check_mac_parts(views, i as int),
        decreases 6 - i,
    {
        let part = parts[i].as_slice();
        assert(part@ == views[i as int]);
        if part.len() != 2 {
            return Err(
                NetError::InvalidAddress(String::from_str("each MAC address part msut be 2 chars")),
            );
        }
        if hex_u8(part).is_none() {
            return Err(
                NetError::InvalidAddress(String::from_str("Invalid hexadecimal in MAC addr")),
            );
        }
        i = i + 1;
    }
    Ok(())
}

/// What parsing the bytes `s` as a MAC address gives: six colon-separated
/// parts, each a hexadecimal byte (in the sense of `parse_hex_u8`).
pub open spec fn mac_text_bytes(s: Seq<u8>) -> Option<Seq<u8>> {
    let parts = split_colons(s);
    if parts.len() == 6 && forall|i: int| 0 <= i < 6 ==> #[trigger] parse_hex_u8(parts[i]) is Some {
        Some(Seq::new(6, |i: int| parse_hex_u8(parts[i]).unwrap()))
    } else {
        None
    }
}

impl MacAddress {
    /// Parses `xx:xx:xx:xx:xx:xx` (see `mac_text_bytes`) from the UTF-8
    /// bytes of a text.
    pub(crate) fn parse_text_bytes(s: &[u8]) -> (r: NetResult<MacAddress>)
        ensures
            split_colons(s@).len() != 6 ==> (r matches Err(NetError::PacketParse(m)) && m@
                == "Invalid MAC address format"@),
            split_colons(s@).len() == 6 && mac_text_bytes(s@) is None ==> (r matches Err(
                NetError::PacketParse(m),
            ) && m@ == "invalid MAC address hex"@),
            mac_text_bytes(s@) matches Some(b) ==> (r matches Ok(a) && a@ == b),
    {
        let parts = split_at_colons(s);
        let ghost views = parts@.map_values(|v: Vec<u8>| v@);
        if parts.len() != 6 {
            return Err(NetError::packet_parse("Invalid MAC address format"));
        }

        let mut bytes = [0_u8; 6];
        let mut i: usize = 0;
        while i < 6
            invariant
                views == parts@.map_values(|v: Vec<u8>| v@),
                views == split_colons(s@),
                views.len() == 6,
                i <= 6,
                forall|j: int| 0 <= j < i ==> #[trigger] parse_hex_u8(views[j]) == Some(bytes@[j]),
            decreases 6 - i,
        {
            let part = parts[i].as_slice();
            assert(part@ == views[i as int]);
            match hex_u8(part) {
                Some(b) => {
                    bytes[i] = b;
                },
                None => {
                    return Err(NetError::packet_parse("invalid MAC address hex"));
                },
            }
            i = i + 1;
        }
        assert(bytes@ =~= Seq::new(6, |i: int| parse_hex_u8(views[i]).unwrap()));
        Ok(MacAddress(bytes))
    }
}

impl std::str::FromStr for MacAddress {
    type Err = NetError;

    /// Parses `xx:xx:xx:xx:xx:xx` (see `MacAddress::parse_text_bytes`).
    fn from_str(s: &str) -> (r: Result<Self, Self::Err>)
        ensures
            split_colons(s.spec_bytes()).len() != 6 ==> (r matches Err(NetError::PacketParse(m))
                && m@ == "Invalid MAC address format"@),
            split_colons(s.spec_bytes()).len() == 6 && mac_text_bytes(s.spec_bytes()) is None ==> (r matches Err(
                NetError::PacketParse(m),
            ) && m@ == "invalid MAC address hex"@),
            mac_text_bytes(s.spec_bytes()) matches Some(b) ==> (r matches Ok(a) && a@ == b),
    {
        MacAddress::parse_text_bytes(s.as_bytes())
    }
}

} // verus!
