//! TCP: flags, headers, segments, the connection state machine and the
//! connection table.
use std::time::{Duration, Instant};
use vstd::prelude::*;

use crate::addr::SocketAddress;
use crate::buffer::{bytes_as_slice, bytes_mut_limit};
use crate::error::{NetError, NetResult};
use crate::packet::{Packet, PacketBuilder, checksum_of, internet_checksum, word_sum};
use crate::random::random_u32;
use crate::time::{duration_from_secs, duration_longer, duration_nanos, instant_elapsed, instant_now};
use crate::wire::{
    be16, be32, be_bytes, extend_bytes, lemma_be32, lemma_u16_bytes, lemma_u32_bytes, u16_bytes,
    u16_to_be, u32_bytes, u32_to_be, usize_to_be, usize_width,
};

verus! {

/// TCP connection states.
#[derive(Debug, Clone, Copy, PartialEq, Eq, Structural)]
pub enum TcpState {
    Closed,
    Listen,
    SynSent,
    SynReceived,
    Established,
    FinWait1,
    FinWait2,
    CloseWait,
    Closing,
    LastAck,
    TimeWait,
}

/// TCP control flags.
#[derive(Debug, Clone, Copy, PartialEq, Eq, Structural)]
pub struct TcpFlags {
    pub fin: bool,
    pub syn: bool,
    pub rst: bool,
    pub psh: bool,
    pub ack: bool,
    pub urg: bool,
    pub ece: bool,
    pub cwr: bool,
}

/// No flag set.
pub open spec fn no_flags() -> TcpFlags {
    TcpFlags {
        fin: false,
        syn: false,
        rst: false,
        psh: false,
        ack: false,
        urg: false,
        ece: false,
        cwr: false,
    }
}

/// The flags that the bits of `value` set (FIN lowest, CWR highest).
pub open spec fn flags_of(value: u8) -> TcpFlags {
    TcpFlags {
        fin: (value & 0x01) != 0,
        syn: (value & 0x02) != 0,
        rst: (value & 0x04) != 0,
        psh: (value & 0x08) != 0,
        ack: (value & 0x10) != 0,
        urg: (value & 0x20) != 0,
        ece: (value & 0x40) != 0,
        cwr: (value & 0x80) != 0,
    }
}

/// The byte that `TcpFlags::to_u8` encodes: no flag contributes a bit, so it
/// is 0 for every set of flags.
pub open spec fn flags_byte(f: TcpFlags) -> u8 {
    0
}

impl TcpFlags {
    /// No flag set.
    pub fn new() -> (r: Self)
        ensures
            r == no_flags(),
    {
        Self {
            fin: false,
            syn: false,
            rst: false,
            psh: false,
            ack: false,
            urg: false,
            ece: false,
            cwr: false,
        }
    }

    /// Only SYN set.
    pub fn syn() -> (r: Self)
        ensures
            r == (TcpFlags { syn: true, ..no_flags() }),
    {
        Self { syn: true, ..Self::new() }
    }

    /// SYN and ACK set.
    pub fn syn_ack() -> (r: Self)
        ensures
            r == (TcpFlags { syn: true, ack: true, ..no_flags() }),
    {
        Self { syn: true, ack: true, ..Self::new() }
    }

    /// Only ACK set.
    pub fn ack() -> (r: Self)
        ensures
            r == (TcpFlags { ack: true, ..no_flags() }),
    {
        Self { ack: true, ..Self::new() }
    }

    /// Only FIN set.
    pub fn fin() -> (r: Self)
        ensures
            r == (TcpFlags { fin: true, ..no_flags() }),
    {
        Self { fin: true, ..Self::new() }
    }

    /// Only RST set.
    pub fn rst() -> (r: Self)
        ensures
            r == (TcpFlags { rst: true, ..no_flags() }),
    {
        Self { rst: true, ..Self::new() }
    }

    /// The flags that the bits of `value` set.
    pub fn from_u8(value: u8) -> (r: Self)
        ensures
            r == flags_of(value),
    {
        Self {
            fin: (value & 0x01) != 0,
            syn: (value & 0x02) != 0,
            rst: (value & 0x04) != 0,
            psh: (value & 0x08) != 0,
            ack: (value & 0x10) != 0,
            urg: (value & 0x20) != 0,
            ece: (value & 0x40) != 0,
            cwr: (value & 0x80) != 0,
        }
    }

    /// The flags as a byte. No flag sets a bit of the result: the byte is 0
    /// whatever flags are set.
    pub fn to_u8(self) -> (r: u8)
        ensures
            r == flags_byte(self),
    {
        let flags = 0_u8;
        flags
    }
}

/// Law: a byte read as flags and written back comes back only when it is 0,
/// since writing flags always gives 0.
pub proof fn lemma_flags_byte_roundtrip(value: u8)
    ensures
        flags_byte(flags_of(value)) == value <==> value == 0,
{
}

/// Law: flags written as a byte and read back come back exactly when no flag
/// is set.
pub proof fn lemma_flags_roundtrip(f: TcpFlags)
    ensures
        flags_of(flags_byte(f)) == f <==> f == no_flags(),
{
    assert(flags_of(0) == no_flags()) by {
        assert(0u8 & 0x01u8 == 0 && 0u8 & 0x02u8 == 0 && 0u8 & 0x04u8 == 0 && 0u8 & 0x08u8 == 0
            && 0u8 & 0x10u8 == 0 && 0u8 & 0x20u8 == 0 && 0u8 & 0x40u8 == 0 && 0u8 & 0x80u8 == 0)
            by (bit_vector);
    }
}

impl Default for TcpFlags {
    fn default() -> (r: Self)
        ensures
            r == no_flags(),
    {
        Self::new()
    }
}

/// A TCP header.
#[derive(Debug)]
pub struct TcpHeader {
    pub source_port: u16,
    pub destination_port: u16,
    pub sequence_number: u32,
    pub acknowledgment_number: u32,
    pub data_offset: u8,
    pub flags: TcpFlags,
    pub window_size: u16,
    pub checksum: u16,
    pub urgent_pointer: u16,
    pub options: Vec<u8>,
}

/// The fields of a TCP header as plain values.
#[verifier::ext_equal]
pub struct TcpHeaderModel {
    pub source_port: u16,
    pub destination_port: u16,
    pub sequence_number: u32,
    pub acknowledgment_number: u32,
    pub data_offset: u8,
    pub flags: TcpFlags,
    pub window_size: u16,
    pub checksum: u16,
    pub urgent_pointer: u16,
    pub options: Seq<u8>,
}

impl View for TcpHeader {
    type V = TcpHeaderModel;

    open spec fn view(&self) -> TcpHeaderModel {
        TcpHeaderModel {
            source_port: self.source_port,
            destination_port: self.destination_port,
            sequence_number: self.sequence_number,
            acknowledgment_number: self.acknowledgment_number,
            data_offset: self.data_offset,
            flags: self.flags,
            window_size: self.window_size,
            checksum: self.checksum,
            urgent_pointer: self.urgent_pointer,
            options: self.options@,
        }
    }
}

/// The number of option bytes that a data offset (in 32-bit words) implies.
pub open spec fn tcp_options_len(data_offset: u8) -> int {
    (data_offset - 5) * 4
}

/// The header fields that the bytes `s` (at least 20 of them, followed by the
/// options) spell.
pub open spec fn tcp_header_fields(s: Seq<u8>) -> TcpHeaderModel {
    let offset_flags = be16(s[12], s[13]);
    let data_offset = (offset_flags >> 12u16) as u8;
    TcpHeaderModel {
        source_port: be16(s[0], s[1]),
        destination_port: be16(s[2], s[3]),
        sequence_number: be32(s.subrange(4, 8)),
        acknowledgment_number: be32(s.subrange(8, 12)),
        data_offset,
        flags: flags_of((offset_flags & 0xFFu16) as u8),
        window_size: be16(s[14], s[15]),
        checksum: be16(s[16], s[17]),
        urgent_pointer: be16(s[18], s[19]),
        options: s.subrange(20, 20 + tcp_options_len(data_offset)),
    }
}

/// The bytes of header `h` on the wire: the checksum field is always zero.
pub open spec fn tcp_header_bytes(h: TcpHeaderModel) -> Seq<u8> {
    u16_bytes(h.source_port) + u16_bytes(h.destination_port) + u32_bytes(h.sequence_number)
        + u32_bytes(h.acknowledgment_number) + u16_bytes(
        ((h.data_offset as u16) << 12u16) | (flags_byte(h.flags) as u16),
    ) + u16_bytes(h.window_size) + seq![0u8, 0u8] + u16_bytes(h.urgent_pointer) + h.options
}

/// The bytes the checksum is computed over: the two addresses, a zero byte,
/// the protocol number 6, and the low bytes of the segment length after the
/// two most significant bytes of a `usize`.
pub open spec fn tcp_pseudo_header(source_ip: Seq<u8>, dest_ip: Seq<u8>, length: nat) -> Seq<u8> {
    source_ip + dest_ip + seq![0u8, 6u8] + be_bytes(length, usize_width()).subrange(
        2,
        usize_width() as int,
    )
}

/// A header that survives being written and read back: a data offset that
/// fits its nibble and matches the options.
pub open spec fn tcp_header_fits_wire(h: TcpHeaderModel) -> bool {
    &&& 5 <= h.data_offset < 16
    &&& h.options.len() == tcp_options_len(h.data_offset)
}

impl TcpHeader {
    pub const MIN_LENGTH: usize = 20;

    pub const MAX_LENGTH: usize = 60;

    /// A 20-byte header from `source_port` to `destination_port` with a
    /// random sequence number, no flags and a window of 65535.
    pub fn new(source_port: u16, destination_port: u16) -> (r: Self)
        ensures
            r.source_port == source_port,
            r.destination_port == destination_port,
            r.acknowledgment_number == 0,
            r.data_offset == 5,
            r.flags == no_flags(),
            r.window_size == 65535,
            r.checksum == 0,
            r.urgent_pointer == 0,
            r.options@ == Seq::<u8>::empty(),
    {
        Self {
            source_port,
            destination_port,
            sequence_number: random_u32(),
            acknowledgment_number: 0,
            data_offset: 5,
            flags: TcpFlags::new(),
            window_size: 65535,
            checksum: 0,
            urgent_pointer: 0,
            options: Vec::new(),
        }
    }

    /// Reads a header (and its options) from the front of `packet`.
    pub fn parse(packet: &mut Packet) -> (r: NetResult<Self>)
        ensures
            ({
                let s = old(packet)@;
                let fields = tcp_header_fields(s);
                let options_end = 20 + tcp_options_len(fields.data_offset);
                &&& s.len() < 20 ==> (r matches Err(NetError::PacketParse(m)) && m@
                    == "TCP header too short"@ && final(packet)@ == s)
                &&& s.len() >= 20 && fields.data_offset < 5 ==> (r matches Err(
                    NetError::Protocol { protocol, message },
                ) && protocol@ == "TCP"@ && message@ == "invalid data offset"@ && final(packet)@
                    == s.skip(14))
                &&& s.len() >= 20 && fields.data_offset >= 5 && s.len() < options_end ==> (r matches Err(
                    NetError::BufferOverflow,
                ) && final(packet)@ == s.skip(20))
                &&& s.len() >= 20 && fields.data_offset >= 5 && s.len() >= options_end ==> (r matches Ok(
                    h,
                ) && h@ == fields && final(packet)@ == s.skip(options_end))
            }),
    {
        if packet.len() < Self::MIN_LENGTH {
            return Err(NetError::packet_parse("TCP header too short"));
        }
        let ghost s = packet@;

        let source_port = packet.read_u16().unwrap();
        let destination_port = packet.read_u16().unwrap();
        let sequence_number = packet.read_u32().unwrap();
        let acknowledgment_number = packet.read_u32().unwrap();
        proof {
            assert(s.skip(4).take(4) =~= s.subrange(4, 8));
            assert(s.skip(4).skip(4).take(4) =~= s.subrange(8, 12));
        }

        let data_offset_flags = packet.read_u16().unwrap();
        let data_offset = (data_offset_flags >> 12) as u8;
        let flags = TcpFlags::from_u8((data_offset_flags & 0xFF) as u8);

        if data_offset < 5 {
            proof {
                assert(packet@ =~= s.skip(14));
            }
            return Err(NetError::protocol("TCP", "invalid data offset"));
        }

        let window_size = packet.read_u16().unwrap();
        let checksum = packet.read_u16().unwrap();
        let urgent_pointer = packet.read_u16().unwrap();
        proof {
            assert(packet@ =~= s.skip(20));
        }

        // read options if present
        let options_length = (data_offset as usize - 5) * 4;
        let options = if options_length > 0 {
            let option_bytes = packet.read_bytes(options_length)?;
            let v = vstd::slice::slice_to_vec(bytes_as_slice(&option_bytes));
            proof {
                assert(v@ =~= s.subrange(20, 20 + options_length));
                assert(packet@ =~= s.skip(20 + options_length));
            }
            v
        } else {
            let v = Vec::new();
            proof {
                assert(v@ =~= s.subrange(20, 20 + options_length));
            }
            v
        };

        let r = TcpHeader {
            source_port,
            destination_port,
            sequence_number,
            acknowledgment_number,
            data_offset,
            flags,
            window_size,
            checksum,
            urgent_pointer,
            options,
        };
        assert(r@ =~= tcp_header_fields(s));
        Ok(r)
    }

    /// The header's bytes; the checksum field is written as zero and
    /// `payload_length` is not used.
    pub fn serialize(&self, payload_length: usize) -> (r: Vec<u8>)
        ensures
            r@ == tcp_header_bytes(self@),
            r@.len() == 20 + self.options@.len(),
    {
        let mut buffer: Vec<u8> = Vec::with_capacity(self.data_offset as usize * 4);

        extend_bytes(&mut buffer, &u16_to_be(self.source_port));
        extend_bytes(&mut buffer, &u16_to_be(self.destination_port));
        extend_bytes(&mut buffer, &u32_to_be(self.sequence_number));
        extend_bytes(&mut buffer, &u32_to_be(self.acknowledgment_number));

        let data_offset_flags = ((self.data_offset as u16) << 12) | (self.flags.to_u8() as u16);
        extend_bytes(&mut buffer, &u16_to_be(data_offset_flags));

        extend_bytes(&mut buffer, &u16_to_be(self.window_size));
        extend_bytes(&mut buffer, &[0, 0]);  // checksum placeholder
        extend_bytes(&mut buffer, &u16_to_be(self.urgent_pointer));
        extend_bytes(&mut buffer, self.options.as_slice());

        assert(buffer@ =~= tcp_header_bytes(self@));
        buffer
    }

    /// Sets the checksum field to the Internet checksum of the pseudo header
    /// built from `source_ip`, `dest_ip` and the length of the serialized
    /// header plus `payload`.
    pub fn calculate_checksum(&mut self, source_ip: &[u8], dest_ip: &[u8], payload: &[u8])
        requires
            20 + old(self).options@.len() + payload@.len() <= usize::MAX,
            word_sum(
                tcp_pseudo_header(
                    source_ip@,
                    dest_ip@,
                    (20 + old(self).options@.len() + payload@.len()) as nat,
                ),
            ) <= u32::MAX,
        ensures
            final(self)@ == (TcpHeaderModel {
                checksum: checksum_of(
                    tcp_pseudo_header(
                        source_ip@,
                        dest_ip@,
                        (20 + old(self).options@.len() + payload@.len()) as nat,
                    ),
                ),
                ..old(self)@
            }),
    {
        let header = self.serialize(payload.len());
        let mut header_placeholder: Vec<u8> = Vec::new();

        extend_bytes(&mut header_placeholder, source_ip);
        extend_bytes(&mut header_placeholder, dest_ip);
        header_placeholder.push(0);  // reserved
        header_placeholder.push(6);  // tcp protocol
        let length_bytes = usize_to_be(header.len() + payload.len());
        let lb = length_bytes.as_slice();
        extend_bytes(&mut header_placeholder, &lb[2..lb.len()]);
        assert(header_placeholder@ =~= tcp_pseudo_header(
            source_ip@,
            dest_ip@,
            (20 + old(self).options@.len() + payload@.len()) as nat,
        ));

        self.checksum = internet_checksum(header_placeholder.as_slice());
    }
}

impl Clone for TcpHeader {
    fn clone(&self) -> (r: Self)
        ensures
            r@ == self@,
    {
        TcpHeader {
            source_port: self.source_port,
            destination_port: self.destination_port,
            sequence_number: self.sequence_number,
            acknowledgment_number: self.acknowledgment_number,
            data_offset: self.data_offset,
            flags: self.flags,
            window_size: self.window_size,
            checksum: self.checksum,
            urgent_pointer: self.urgent_pointer,
            options: vstd::slice::slice_to_vec(self.options.as_slice()),
        }
    }
}

/// Law: the data offset (the high four bits of byte 12) counts 32-bit
/// words. For a data offset `d` of at least 5 and at least `4 * d` bytes, the
/// header that `TcpHeader::parse` reads occupies exactly `4 * d` bytes: its
/// options are bytes 20 up to `4 * d`, and what is left (the payload of
/// `TcpSegment::parse`) starts at byte `4 * d`.
pub proof fn lemma_tcp_data_offset_counts_words(s: Seq<u8>)
    requires
        s.len() >= 20,
        s[12] / 16 >= 5,
        s.len() >= 4 * (s[12] / 16),
    ensures
        tcp_header_fields(s).data_offset == s[12] / 16,
        20 + tcp_options_len(tcp_header_fields(s).data_offset) == 4 * (s[12] / 16),
        tcp_header_fields(s).options == s.subrange(20, 4 * (s[12] / 16)),
        s.skip(20 + tcp_options_len(tcp_header_fields(s).data_offset)) == s.skip(
            4 * (s[12] / 16),
        ),
{
    let hi = s[12];
    let lo = s[13];
    crate::wire::lemma_be16(hi, lo);
    let v = be16(hi, lo);
    assert(v == hi as u16 * 256 + lo as u16 ==> (v >> 12u16) as u8 == hi / 16) by (bit_vector);
}

/// Law: a header that fits the wire, serialized and followed by any bytes,
/// passes the checks of `TcpHeader::parse` and reads back field for field,
/// except that the checksum reads as 0 and the flags as none set (they are
/// not written).
pub proof fn lemma_tcp_header_roundtrip(h: TcpHeaderModel, rest: Seq<u8>)
    requires
        tcp_header_fits_wire(h),
    ensures
        ({
            let s = tcp_header_bytes(h) + rest;
            &&& s.len() >= 20 + tcp_options_len(h.data_offset)
            &&& tcp_header_fields(s) == (TcpHeaderModel { checksum: 0, flags: no_flags(), ..h })
            &&& s.skip(20 + tcp_options_len(h.data_offset)) == rest
        }),
{
    let s = tcp_header_bytes(h) + rest;
    let d = h.data_offset;
    assert(d < 16 ==> (((d as u16) << 12u16) | 0u16) >> 12u16 == d as u16 && ((((d as u16)
        << 12u16) | 0u16) & 0xFFu16) == 0u16) by (bit_vector);
    let w = ((d as u16) << 12u16) | (flags_byte(h.flags) as u16);
    lemma_u16_bytes(h.source_port);
    lemma_u16_bytes(h.destination_port);
    lemma_u16_bytes(w);
    lemma_u16_bytes(h.window_size);
    lemma_u16_bytes(h.urgent_pointer);
    lemma_u16_bytes(0);
    lemma_u32_bytes(h.sequence_number);
    lemma_u32_bytes(h.acknowledgment_number);
    lemma_flags_roundtrip(no_flags());
    assert(s.subrange(4, 8) =~= u32_bytes(h.sequence_number));
    assert(s.subrange(8, 12) =~= u32_bytes(h.acknowledgment_number));
    assert(s[0] == u16_bytes(h.source_port)[0] && s[1] == u16_bytes(h.source_port)[1]);
    assert(s[2] == u16_bytes(h.destination_port)[0] && s[3] == u16_bytes(h.destination_port)[1]);
    assert(s[12] == u16_bytes(w)[0] && s[13] == u16_bytes(w)[1]);
    assert(s[14] == u16_bytes(h.window_size)[0] && s[15] == u16_bytes(h.window_size)[1]);
    assert(s[16] == 0 && s[17] == 0);
    assert(s[18] == u16_bytes(h.urgent_pointer)[0] && s[19] == u16_bytes(h.urgent_pointer)[1]);
    assert(s.subrange(20, 20 + tcp_options_len(d)) =~= h.options);
    assert(s.skip(20 + tcp_options_len(d)) =~= rest);
    assert(tcp_header_fields(s) =~= (TcpHeaderModel { checksum: 0, flags: no_flags(), ..h }));
}

/// A TCP segment: a header and its payload.
#[derive(Debug)]
pub struct TcpSegment {
    pub header: TcpHeader,
    pub payload: Packet,
}

/// A segment as plain values.
#[verifier::ext_equal]
pub struct TcpSegmentModel {
    pub header: TcpHeaderModel,
    pub payload: Seq<u8>,
}

impl View for TcpSegment {
    type V = TcpSegmentModel;

    open spec fn view(&self) -> TcpSegmentModel {
        TcpSegmentModel { header: self.header@, payload: self.payload@ }
    }
}

impl Clone for TcpSegment {
    fn clone(&self) -> (r: Self)
        ensures
            r@ == self@,
    {
        TcpSegment { header: self.header.clone(), payload: self.payload.clone() }
    }
}

impl TcpSegment {
    /// A segment with the given header and payload.
    pub fn new(header: TcpHeader, payload: Packet) -> (r: Self)
        ensures
            r.header == header,
            r.payload == payload,
    {
        Self { header, payload }
    }

    /// Reads a segment: a header, then everything after it as payload.
    pub fn parse(packet: Packet) -> (r: NetResult<Self>)
        ensures
            ({
                let s = packet@;
                let fields = tcp_header_fields(s);
                let options_end = 20 + tcp_options_len(fields.data_offset);
                let accepted = s.len() >= 20 && fields.data_offset >= 5 && s.len() >= options_end;
                &&& accepted ==> (r matches Ok(seg) && seg.header@ == fields && seg.payload@
                    == s.skip(options_end))
                &&& !accepted ==> r is Err
                &&& s.len() < 20 ==> (r matches Err(NetError::PacketParse(m)) && m@
                    == "TCP header too short"@)
            }),
    {
        let mut packet = packet;
        let header = TcpHeader::parse(&mut packet)?;
        Ok(TcpSegment { header, payload: packet })
    }

    /// Sets the header's checksum (see `TcpHeader::calculate_checksum`) and
    /// returns the segment's bytes: the header, then the payload.
    pub fn serialize(&mut self, source_ip: &[u8], dest_ip: &[u8]) -> (r: Packet)
        requires
            20 + old(self).header.options@.len() + old(self).payload@.len() <= bytes_mut_limit(),
            word_sum(
                tcp_pseudo_header(
                    source_ip@,
                    dest_ip@,
                    (20 + old(self).header.options@.len() + old(self).payload@.len()) as nat,
                ),
            ) <= u32::MAX,
        ensures
            final(self).header@ == (TcpHeaderModel {
                checksum: checksum_of(
                    tcp_pseudo_header(
                        source_ip@,
                        dest_ip@,
                        (20 + old(self).header.options@.len() + old(self).payload@.len()) as nat,
                    ),
                ),
                ..old(self).header@
            }),
            final(self).payload == old(self).payload,
            r@ == tcp_header_bytes(final(self).header@) + old(self).payload@,
    {
        self.header.calculate_checksum(source_ip, dest_ip, self.payload.as_slice());
        let header_bytes = self.header.serialize(self.payload.len());

        let mut builder = PacketBuilder::with_capacity(header_bytes.len() + self.payload.len());
        builder.write_bytes(header_bytes.as_slice());
        builder.write_bytes(self.payload.as_slice());

        builder.build()
    }
}

/// A TCP connection between two socket addresses.
#[derive(Debug)]
pub struct TcpConnection {
    pub state: TcpState,
    pub local_addr: SocketAddress,
    pub remote_addr: SocketAddress,
    pub local_seq: u32,
    pub remote_seq: u32,
    pub local_ack: u32,
    pub remote_ack: u32,
    pub window_size: u16,
    pub last_activity: Instant,
    pub retransmit_queue: Vec<TcpSegment>,
}

/// A connection as plain values; the time of the last activity is left out.
#[verifier::ext_equal]
pub struct TcpConnectionModel {
    pub state: TcpState,
    pub local_addr: SocketAddress,
    pub remote_addr: SocketAddress,
    pub local_seq: u32,
    pub remote_seq: u32,
    pub local_ack: u32,
    pub remote_ack: u32,
    pub window_size: u16,
    pub retransmit_queue: Seq<TcpSegmentModel>,
}

impl View for TcpConnection {
    type V = TcpConnectionModel;

    open spec fn view(&self) -> TcpConnectionModel {
        TcpConnectionModel {
            state: self.state,
            local_addr: self.local_addr,
            remote_addr: self.remote_addr,
            local_seq: self.local_seq,
            remote_seq: self.remote_seq,
            local_ack: self.local_ack,
            remote_ack: self.remote_ack,
            window_size: self.window_size,
            retransmit_queue: self.retransmit_queue@.map_values(|s: TcpSegment| s@),
        }
    }
}

/// The views of a list of segments.
pub open spec fn segment_views(v: Seq<TcpSegment>) -> Seq<TcpSegmentModel> {
    v.map_values(|s: TcpSegment| s@)
}

/// A connection with nothing exchanged yet, in state `state`, with initial
/// sequence number `local_seq`.
pub open spec fn fresh_connection(
    state: TcpState,
    local_addr: SocketAddress,
    remote_addr: SocketAddress,
    local_seq: u32,
) -> TcpConnectionModel {
    TcpConnectionModel {
        state,
        local_addr,
        remote_addr,
        local_seq,
        remote_seq: 0,
        local_ack: 0,
        remote_ack: 0,
        window_size: 65535,
        retransmit_queue: Seq::empty(),
    }
}

/// The sequence number after `s`, modulo 2^32.
pub open spec fn next_seq(s: u32) -> u32 {
    if s == u32::MAX {
        0
    } else {
        (s + 1) as u32
    }
}

/// A segment that `c` sends: a fresh 20-byte header between its ports with
/// the given numbers and flags, and no payload.
pub open spec fn outgoing_segment(c: TcpConnectionModel, seq: u32, ack: u32, flags: TcpFlags) -> TcpSegmentModel {
    TcpSegmentModel {
        header: TcpHeaderModel {
            source_port: c.local_addr.port,
            destination_port: c.remote_addr.port,
            sequence_number: seq,
            acknowledgment_number: ack,
            data_offset: 5,
            flags,
            window_size: 65535,
            checksum: 0,
            urgent_pointer: 0,
            options: Seq::empty(),
        },
        payload: Seq::empty(),
    }
}

/// Whether handling `seg` in `c` would add past `u32::MAX`: the arithmetic
/// on the peer's sequence number does not wrap, so such a segment is not
/// accepted.
pub open spec fn segment_overflows(c: TcpConnectionModel, seg: TcpSegmentModel) -> bool {
    let h = seg.header;
    match c.state {
        TcpState::Listen => h.flags.syn && h.sequence_number == u32::MAX,
        TcpState::SynSent => h.flags.syn && h.flags.ack && h.sequence_number == u32::MAX,
        TcpState::Established => if h.flags.fin {
            h.sequence_number == u32::MAX
        } else {
            seg.payload.len() != 0 && h.sequence_number + (seg.payload.len() as u32) > u32::MAX
        },
        _ => false,
    }
}

/// The state machine: the connection after `seg` arrives in `c`, and the
/// segments it answers with.
pub open spec fn handle_segment_spec(c: TcpConnectionModel, seg: TcpSegmentModel) -> (
    TcpConnectionModel,
    Seq<TcpSegmentModel>,
) {
    let h = seg.header;
    match c.state {
        TcpState::Listen => if h.flags.syn {
            let ack = (h.sequence_number + 1) as u32;
            (
                TcpConnectionModel {
                    state: TcpState::SynReceived,
                    remote_seq: h.sequence_number,
                    remote_ack: ack,
                    local_seq: next_seq(c.local_seq),
                    ..c
                },
                seq![outgoing_segment(c, c.local_seq, ack, TcpFlags { syn: true, ack: true, ..no_flags() })],
            )
        } else {
            (c, Seq::empty())
        },
        TcpState::SynSent => if h.flags.syn && h.flags.ack {
            let ack = (h.sequence_number + 1) as u32;
            (
                TcpConnectionModel {
                    state: TcpState::Established,
                    remote_seq: h.sequence_number,
                    remote_ack: ack,
                    ..c
                },
                seq![outgoing_segment(c, c.local_seq, ack, TcpFlags { ack: true, ..no_flags() })],
            )
        } else {
            (c, Seq::empty())
        },
        TcpState::SynReceived => if h.flags.ack {
            (TcpConnectionModel { state: TcpState::Established, ..c }, Seq::empty())
        } else {
            (c, Seq::empty())
        },
        TcpState::Established => if h.flags.fin {
            let ack = (h.sequence_number + 1) as u32;
            (
                TcpConnectionModel { state: TcpState::CloseWait, remote_ack: ack, ..c },
                seq![outgoing_segment(c, c.local_seq, ack, TcpFlags { ack: true, ..no_flags() })],
            )
        } else if seg.payload.len() != 0 {
            let ack = (h.sequence_number + (seg.payload.len() as u32)) as u32;
            (
                TcpConnectionModel { remote_ack: ack, ..c },
                seq![outgoing_segment(c, c.local_seq, ack, TcpFlags { ack: true, ..no_flags() })],
            )
        } else {
            (c, Seq::empty())
        },
        _ => (c, Seq::empty()),
    }
}

/// Law: the connection's own sequence number moves on (by one, modulo
/// 2^32) exactly when it answers with a SYN or a FIN; an ACK consumes no
/// sequence number. Every answer carries the sequence number the connection
/// had, and there is at most one. In particular a SYN+ACK arriving in
/// `SynSent` establishes the connection, acknowledges the peer's number plus
/// one, and leaves the own sequence number as it was.
pub proof fn lemma_sequence_number_use(c: TcpConnectionModel, seg: TcpSegmentModel)
    ensures
        ({
            let (c1, rs) = handle_segment_spec(c, seg);
            &&& rs.len() <= 1
            &&& forall|i: int| 0 <= i < rs.len() ==> #[trigger] rs[i].header.sequence_number
                == c.local_seq
            &&& c1.local_seq == if rs.len() == 1 && (rs[0].header.flags.syn
                || rs[0].header.flags.fin) {
                ((c.local_seq + 1) % 0x1_0000_0000) as u32
            } else {
                c.local_seq
            }
            &&& (c.state == TcpState::SynSent && seg.header.flags.syn && seg.header.flags.ack)
                ==> {
                &&& c1.state == TcpState::Established
                &&& c1.local_seq == c.local_seq
                &&& c1.remote_seq == seg.header.sequence_number
                &&& c1.remote_ack == ((seg.header.sequence_number + 1) % 0x1_0000_0000) as u32
                &&& rs.len() == 1 && rs[0].header.flags.ack && !rs[0].header.flags.syn
                    && rs[0].header.acknowledgment_number == c1.remote_ack
            }
        }),
{
    lemma_next_seq(c.local_seq);
    let q: u32 = seg.header.sequence_number;
    assert(((q + 1) as u32) as int == (q + 1) % 0x1_0000_0000) by (bit_vector);
}

/// Law: `next_seq` adds one modulo 2^32.
pub proof fn lemma_next_seq(s: u32)
    ensures
        next_seq(s) == (s + 1) % 0x1_0000_0000,
{
}

impl Clone for TcpConnection {
    fn clone(&self) -> (r: Self)
        ensures
            r@ == self@,
    {
        let mut queue: Vec<TcpSegment> = Vec::new();
        let mut i: usize = 0;
        while i < self.retransmit_queue.len()
            invariant
                i <= self.retransmit_queue@.len(),
                queue@.len() == i,
                segment_views(queue@) == segment_views(self.retransmit_queue@.take(i as int)),
            decreases self.retransmit_queue@.len() - i,
        {
            let ghost before = queue@;
            let copy = self.retransmit_queue[i].clone();
            queue.push(copy);
            proof {
                assert forall|j: int| 0 <= j < i + 1 implies segment_views(queue@)[j]
                    == segment_views(self.retransmit_queue@.take(i + 1))[j] by {
                    if j < i {
                        assert(queue@[j] == before[j]);
                        assert(segment_views(before)[j] == segment_views(
                            self.retransmit_queue@.take(i as int),
                        )[j]);
                    }
                }
            }
            i = i + 1;
            assert(segment_views(queue@) =~= segment_views(self.retransmit_queue@.take(i as int)));
        }
        assert(self.retransmit_queue@.take(i as int) =~= self.retransmit_queue@);
        let r = TcpConnection {
            state: self.state,
            local_addr: self.local_addr,
            remote_addr: self.remote_addr,
            local_seq: self.local_seq,
            remote_seq: self.remote_seq,
            local_ack: self.local_ack,
            remote_ack: self.remote_ack,
            window_size: self.window_size,
            last_activity: self.last_activity,
            retransmit_queue: queue,
        };
        assert(r@ =~= self@);
        r
    }
}

impl TcpConnection {
    /// A closed connection from `local_addr` to `remote_addr` with a random
    /// initial sequence number.
    pub fn new(local_addr: SocketAddress, remote_addr: SocketAddress) -> (r: Self)
        ensures
            r@ == fresh_connection(TcpState::Closed, local_addr, remote_addr, r.local_seq),
    {
        let r = Self {
            state: TcpState::Closed,
            local_addr,
            remote_addr,
            local_seq: random_u32(),
            remote_seq: 0,
            local_ack: 0,
            remote_ack: 0,
            window_size: 65535,
            last_activity: instant_now(),
            retransmit_queue: Vec::new(),
        };
        assert(r@ =~= fresh_connection(TcpState::Closed, local_addr, remote_addr, r.local_seq));
        r
    }

    /// Records that the connection was active now.
    pub fn update_activity(&mut self)
        ensures
            final(self)@ == old(self)@,
    {
        self.last_activity = instant_now();
    }

    /// Whether more than `timeout` has passed since the last activity; this
    /// depends on the clock, so nothing is stated of the result.
    pub fn is_expired(&self, timeout: Duration) -> (r: bool) {
        let elapsed = instant_elapsed(&self.last_activity);
        duration_longer(&elapsed, &timeout)
    }

    /// A reply segment with the given numbers and flags.
    fn reply(&self, seq: u32, ack: u32, flags: TcpFlags) -> (r: TcpSegment)
        ensures
            r@ == outgoing_segment(self@, seq, ack, flags),
    {
        let mut response_header = TcpHeader::new(self.local_addr.port(), self.remote_addr.port());
        response_header.sequence_number = seq;
        response_header.acknowledgment_number = ack;
        response_header.flags = flags;
        let r = TcpSegment::new(response_header, Packet::from_vec(Vec::new()));
        assert(r@ =~= outgoing_segment(self@, seq, ack, flags));
        r
    }

    /// Runs the state machine on an arriving segment (see
    /// `handle_segment_spec`) and returns the segments to send.
    pub fn handle_segment(&mut self, segment: &TcpSegment) -> (r: NetResult<Vec<TcpSegment>>)
        requires
            !segment_overflows(old(self)@, segment@),
        ensures
            r matches Ok(responses) && (final(self)@, segment_views(responses@))
                == handle_segment_spec(old(self)@, segment@),
    {
        self.update_activity();

        let mut responses: Vec<TcpSegment> = Vec::new();
        let ghost c = self@;

        match self.state {
            TcpState::Listen => {
                if segment.header.flags.syn {
                    self.remote_seq = segment.header.sequence_number;
                    self.remote_ack = segment.header.sequence_number + 1;
                    self.state = TcpState::SynReceived;

                    // send SYN-ACK
                    responses.push(self.reply(self.local_seq, self.remote_ack, TcpFlags::syn_ack()));

                    self.local_seq = self.local_seq.wrapping_add(1);
                }
            },
            TcpState::SynSent => {
                if segment.header.flags.syn && segment.header.flags.ack {
                    self.remote_seq = segment.header.sequence_number;
                    self.remote_ack = segment.header.sequence_number + 1;
                    self.state = TcpState::Established;

                    // send ACK
                    responses.push(self.reply(self.local_seq, self.remote_ack, TcpFlags::ack()));
                }
            },
            TcpState::SynReceived => {
                if segment.header.flags.ack {
                    self.state = TcpState::Established;
                }
            },
            TcpState::Established => {
                if segment.header.flags.fin {
                    self.state = TcpState::CloseWait;
                    self.remote_ack = segment.header.sequence_number + 1;

                    // send ACK for FIN
                    responses.push(self.reply(self.local_seq, self.remote_ack, TcpFlags::ack()));
                } else if !segment.payload.is_empty() {
                    // data segment
                    self.remote_ack = segment.header.sequence_number + segment.payload.len() as u32;

                    // send ACK
                    responses.push(self.reply(self.local_seq, self.remote_ack, TcpFlags::ack()));
                }
            },
            _ => {
                // other states do not react yet
            },
        }
        assert(self@ =~= handle_segment_spec(c, segment@).0);
        assert(segment_views(responses@) =~= handle_segment_spec(c, segment@).1);
        Ok(responses)
    }

    /// Starts an active open: from `Closed`, moves to `SynSent` and returns the
    /// SYN to send; in any other state fails and changes nothing.
    pub fn initiate_connection(&mut self) -> (r: NetResult<TcpSegment>)
        ensures
            final(self).last_activity == old(self).last_activity,
            old(self).state != TcpState::Closed ==> (r matches Err(NetError::Socket(m)) && m@
                == "connection already in progress"@ && final(self)@ == old(self)@),
            old(self).state == TcpState::Closed ==> (r matches Ok(seg) && seg@ == outgoing_segment(
                old(self)@,
                old(self).local_seq,
                0,
                TcpFlags { syn: true, ..no_flags() },
            ) && final(self)@ == (TcpConnectionModel {
                state: TcpState::SynSent,
                local_seq: next_seq(old(self).local_seq),
                ..old(self)@
            })),
    {
        if self.state != TcpState::Closed {
            return Err(NetError::socket("connection already in progress"));
        }

        self.state = TcpState::SynSent;

        let mut header = TcpHeader::new(self.local_addr.port(), self.remote_addr.port());

        header.sequence_number = self.local_seq;
        header.flags = TcpFlags::syn();

        self.local_seq = self.local_seq.wrapping_add(1);

        let seg = TcpSegment::new(header, Packet::from_vec(Vec::new()));
        assert(seg@ =~= outgoing_segment(
            old(self)@,
            old(self).local_seq,
            0,
            TcpFlags { syn: true, ..no_flags() },
        ));
        assert(self@ =~= (TcpConnectionModel {
            state: TcpState::SynSent,
            local_seq: next_seq(old(self).local_seq),
            ..old(self)@
        }));
        Ok(seg)
    }

    /// Starts closing: `Established` moves to `FinWait1` and `CloseWait` to
    /// `LastAck`, returning the FIN to send; in any other state fails and
    /// changes nothing.
    pub fn close_connection(&mut self) -> (r: NetResult<TcpSegment>)
        ensures
            final(self).last_activity == old(self).last_activity,
            !(old(self).state == TcpState::Established || old(self).state == TcpState::CloseWait)
                ==> (r matches Err(NetError::Socket(m)) && m@ == "invalid state for close"@
                && final(self)@ == old(self)@),
            old(self).state == TcpState::Established || old(self).state == TcpState::CloseWait
                ==> (r matches Ok(seg) && seg@ == outgoing_segment(
                old(self)@,
                old(self).local_seq,
                old(self).remote_ack,
                TcpFlags { fin: true, ..no_flags() },
            ) && final(self)@ == (TcpConnectionModel {
                state: if old(self).state == TcpState::Established {
                    TcpState::FinWait1
                } else {
                    TcpState::LastAck
                },
                local_seq: next_seq(old(self).local_seq),
                ..old(self)@
            })),
    {
        match self.state {
            TcpState::Established => {
                self.state = TcpState::FinWait1;
            },
            TcpState::CloseWait => {
                self.state = TcpState::LastAck;
            },
            _ => {
                return Err(NetError::socket("invalid state for close"));
            },
        }

        let mut header = TcpHeader::new(self.local_addr.port(), self.remote_addr.port());
        header.sequence_number = self.local_seq;
        header.acknowledgment_number = self.remote_ack;
        header.flags = TcpFlags::fin();

        self.local_seq = self.local_seq.wrapping_add(1);

        let seg = TcpSegment::new(header, Packet::from_vec(Vec::new()));
        assert(seg@ =~= outgoing_segment(
            old(self)@,
            old(self).local_seq,
            old(self).remote_ack,
            TcpFlags { fin: true, ..no_flags() },
        ));
        assert(self@ =~= (TcpConnectionModel {
            state: if old(self).state == TcpState::Established {
                TcpState::FinWait1
            } else {
                TcpState::LastAck
            },
            local_seq: next_seq(old(self).local_seq),
            ..old(self)@
        }));
        Ok(seg)
    }
}

/// The key of a connection: local address, then remote address.
pub type ConnectionKey = (SocketAddress, SocketAddress);

/// The connections that a list of entries holds, later entries winning.
pub open spec fn connection_map(entries: Seq<(ConnectionKey, TcpConnection)>) -> Map<
    ConnectionKey,
    TcpConnectionModel,
>
    decreases entries.len(),
{
    if entries.len() == 0 {
        Map::empty()
    } else {
        connection_map(entries.drop_last()).insert(entries.last().0, entries.last().1@)
    }
}

/// No two entries share a key.
pub open spec fn keys_distinct(entries: Seq<(ConnectionKey, TcpConnection)>) -> bool {
    forall|i: int, j: int|
        0 <= i < entries.len() && 0 <= j < entries.len() && i != j ==> entries[i].0 != entries[j].0
}

/// With distinct keys, the map holds exactly the entries' keys, each with its
/// entry's connection.
proof fn lemma_connection_map(entries: Seq<(ConnectionKey, TcpConnection)>)
    requires
        keys_distinct(entries),
    ensures
        forall|k: ConnectionKey| #[trigger]
            connection_map(entries).contains_key(k) <==> exists|i: int|
                0 <= i < entries.len() && entries[i].0 == k,
        forall|i: int|
            0 <= i < entries.len() ==> #[trigger] connection_map(entries)[entries[i].0]
                == entries[i].1@,
    decreases entries.len(),
{
    if entries.len() > 0 {
        let rest = entries.drop_last();
        assert(keys_distinct(rest));
        lemma_connection_map(rest);
        let n = entries.len() - 1;
        assert forall|k: ConnectionKey| #[trigger]
            connection_map(entries).contains_key(k) <==> exists|i: int|
                0 <= i < entries.len() && entries[i].0 == k by {
            if connection_map(entries).contains_key(k) {
                if k == entries[n].0 {
                    assert(0 <= n < entries.len() && entries[n].0 == k);
                } else {
                    assert(connection_map(rest).contains_key(k));
                    let i = choose|i: int| 0 <= i < rest.len() && rest[i].0 == k;
                    assert(rest[i] == entries[i]);
                    assert(0 <= i < entries.len() && entries[i].0 == k);
                }
            }
            if exists|i: int| 0 <= i < entries.len() && entries[i].0 == k {
                let i = choose|i: int| 0 <= i < entries.len() && entries[i].0 == k;
                if i < n {
                    assert(rest[i] == entries[i]);
                    assert(0 <= i < rest.len() && rest[i].0 == k);
                    assert(connection_map(rest).contains_key(k));
                }
            }
        }
        assert forall|i: int| 0 <= i < entries.len() implies #[trigger] connection_map(
            entries,
        )[entries[i].0] == entries[i].1@ by {
            if i < n {
                assert(rest[i] == entries[i]);
                assert(entries[i].0 != entries[n].0);
                assert(connection_map(rest)[rest[i].0] == rest[i].1@);
            }
        }
    }
}

/// The table of TCP connections, keyed by local and remote address.
pub struct TcpConnectionManager {
    connections: Vec<(ConnectionKey, TcpConnection)>,
    connection_timeout: Duration,
}

impl View for TcpConnectionManager {
    type V = Map<ConnectionKey, TcpConnectionModel>;

    closed spec fn view(&self) -> Map<ConnectionKey, TcpConnectionModel> {
        connection_map(self.connections@)
    }
}

impl TcpConnectionManager {
    #[verifier::type_invariant]
    spec fn keys_unique(self) -> bool {
        keys_distinct(self.connections@)
    }

    /// How long a connection may stay idle before `cleanup_expired_connections`
    /// drops it.
    pub closed spec fn timeout(self) -> Duration {
        self.connection_timeout
    }

    /// An empty table with a timeout of five minutes.
    pub fn new() -> (r: Self)
        ensures
            r@ == Map::<ConnectionKey, TcpConnectionModel>::empty(),
            duration_nanos(r.timeout()) == 300_000_000_000,
    {
        let r = Self { connections: Vec::new(), connection_timeout: duration_from_secs(300) };
        assert(r@ =~= Map::<ConnectionKey, TcpConnectionModel>::empty());
        r
    }

    /// The index of the entry with key `(local, remote)`.
    fn find(&self, local: SocketAddress, remote: SocketAddress) -> (r: Option<usize>)
        ensures
            r matches Some(i) ==> i < self.connections@.len() && self.connections@[i as int].0 == (
                local,
                remote,
            ),
            r is None ==> forall|i: int|
                0 <= i < self.connections@.len() ==> self.connections@[i].0 != (local, remote),
    {
        let mut i: usize = 0;
        while i < self.connections.len()
            invariant
                i <= self.connections@.len(),
                forall|j: int| 0 <= j < i ==> self.connections@[j].0 != (local, remote),
            decreases self.connections@.len() - i,
        {
            let key = &self.connections[i].0;
            if key.0 == local && key.1 == remote {
                return Some(i);
            }
            i = i + 1;
        }
        None
    }

    /// A copy of the connection with key `(local, remote)`, if there is one.
    pub fn get_connection(&self, local: SocketAddress, remote: SocketAddress) -> (r: Option<
        TcpConnection,
    >)
        ensures
            self@.contains_key((local, remote)) ==> (r matches Some(c) && c@ == self@[(
                local,
                remote,
            )]),
            !self@.contains_key((local, remote)) ==> r is None,
    {
        proof {
            use_type_invariant(self);
            lemma_connection_map(self.connections@);
        }
        match self.find(local, remote) {
            Some(i) => Some(self.connections[i].1.clone()),
            None => None,
        }
    }

    /// Stores `connection` under key `(local, remote)`, replacing any
    /// connection stored there.
    pub fn update_connection(
        &mut self,
        local: SocketAddress,
        remote: SocketAddress,
        connection: TcpConnection,
    )
        ensures
            final(self)@ == old(self)@.insert((local, remote), connection@),
            final(self).timeout() == old(self).timeout(),
    {
        proof {
            use_type_invariant(&*self);
            lemma_connection_map(self.connections@);
        }
        let ghost c = connection@;
        let ghost old_entries = self.connections@;
        match self.find(local, remote) {
            Some(i) => {
                let mut connections = Vec::new();
                std::mem::swap(&mut connections, &mut self.connections);
                connections.set(i, ((local, remote), connection));
                proof {
                    let e = connections@;
                    assert(keys_distinct(e)) by {
                        assert forall|a: int, b: int|
                            0 <= a < e.len() && 0 <= b < e.len() && a != b implies e[a].0
                            != e[b].0 by {
                            if a != i && b != i {
                                assert(e[a] == old_entries[a] && e[b] == old_entries[b]);
                            } else if a == i {
                                assert(e[b] == old_entries[b]);
                                assert(old_entries[i as int].0 == (local, remote));
                            } else {
                                assert(e[a] == old_entries[a]);
                                assert(old_entries[i as int].0 == (local, remote));
                            }
                        }
                    }
                    lemma_connection_map(e);
                    assert(connection_map(e) =~= connection_map(old_entries).insert(
                        (local, remote),
                        c,
                    )) by {
                        assert forall|k: ConnectionKey|
                            #[trigger] connection_map(e).contains_key(k) implies connection_map(
                            old_entries,
                        ).insert((local, remote), c).contains_key(k) by {
                            let j = choose|j: int| 0 <= j < e.len() && e[j].0 == k;
                            if j != i {
                                assert(old_entries[j] == e[j]);
                            }
                        }
                        assert forall|k: ConnectionKey|
                            #[trigger] connection_map(old_entries).insert(
                                (local, remote),
                                c,
                            ).contains_key(k) implies connection_map(e).contains_key(k) by {
                            if k != (local, remote) {
                                let j = choose|j: int|
                                    0 <= j < old_entries.len() && old_entries[j].0 == k;
                                assert(e[j] == old_entries[j]);
                            } else {
                                assert(e[i as int].0 == k);
                            }
                        }
                        assert forall|k: ConnectionKey|
                            #[trigger] connection_map(e).contains_key(k) implies connection_map(
                            e,
                        )[k] == connection_map(old_entries).insert((local, remote), c)[k] by {
                            let j = choose|j: int| 0 <= j < e.len() && e[j].0 == k;
                            if j != i {
                                assert(old_entries[j] == e[j]);
                            }
                        }
                    }
                }
                self.connections = connections;
            },
            None => {
                let mut connections = Vec::new();
                std::mem::swap(&mut connections, &mut self.connections);
                connections.push(((local, remote), connection));
                proof {
                    let e = connections@;
                    assert(e.drop_last() =~= old_entries);
                    assert(keys_distinct(e)) by {
                        assert forall|a: int, b: int|
                            0 <= a < e.len() && 0 <= b < e.len() && a != b implies e[a].0
                            != e[b].0 by {
                            if a < old_entries.len() && b < old_entries.len() {
                                assert(e[a] == old_entries[a] && e[b] == old_entries[b]);
                            } else if a < old_entries.len() {
                                assert(e[a] == old_entries[a]);
                            } else {
                                assert(e[b] == old_entries[b]);
                            }
                        }
                    }
                }
                self.connections = connections;
            },
        }
    }

    /// Stores `connection` under its own key (its local and remote address),
    /// replacing any connection stored there.
    pub fn add_connection(&mut self, connection: TcpConnection)
        ensures
            final(self)@ == old(self)@.insert(
                (connection.local_addr, connection.remote_addr),
                connection@,
            ),
            final(self).timeout() == old(self).timeout(),
    {
        let local = connection.local_addr;
        let remote = connection.remote_addr;
        self.update_connection(local, remote, connection);
    }

    /// Drops the connection with key `(local, remote)`, if there is one.
    pub fn remove_connection(&mut self, local: SocketAddress, remote: SocketAddress)
        ensures
            final(self)@ == old(self)@.remove((local, remote)),
            final(self).timeout() == old(self).timeout(),
    {
        proof {
            use_type_invariant(&*self);
            lemma_connection_map(self.connections@);
        }
        let ghost old_entries = self.connections@;
        match self.find(local, remote) {
            Some(i) => {
                let mut connections = Vec::new();
                std::mem::swap(&mut connections, &mut self.connections);
                let _removed = connections.remove(i);
                proof {
                    let e = connections@;
                    assert forall|j: int| 0 <= j < e.len() implies #[trigger] e[j] == old_entries[if j
                        < i {
                        j
                    } else {
                        j + 1
                    }] by {}
                    assert(keys_distinct(e)) by {
                        assert forall|a: int, b: int|
                            0 <= a < e.len() && 0 <= b < e.len() && a != b implies e[a].0
                            != e[b].0 by {
                            let a2 = if a < i {
                                a
                            } else {
                                a + 1
                            };
                            let b2 = if b < i {
                                b
                            } else {
                                b + 1
                            };
                            assert(e[a] == old_entries[a2] && e[b] == old_entries[b2]);
                        }
                    }
                    lemma_connection_map(e);
                    assert(connection_map(e) =~= connection_map(old_entries).remove((local, remote)))
                        by {
                        assert forall|k: ConnectionKey|
                            #[trigger] connection_map(e).contains_key(k) implies connection_map(
                            old_entries,
                        ).remove((local, remote)).contains_key(k) by {
                            let j = choose|j: int| 0 <= j < e.len() && e[j].0 == k;
                            let j2 = if j < i {
                                j
                            } else {
                                j + 1
                            };
                            assert(e[j] == old_entries[j2]);
                        }
                        assert forall|k: ConnectionKey|
                            #[trigger] connection_map(old_entries).remove(
                                (local, remote),
                            ).contains_key(k) implies connection_map(e).contains_key(k) by {
                            let j2 = choose|j: int|
                                0 <= j < old_entries.len() && old_entries[j].0 == k;
                            let j = if j2 < i {
                                j2
                            } else {
                                j2 - 1
                            };
                            assert(e[j] == old_entries[j2]);
                        }
                        assert forall|k: ConnectionKey|
                            #[trigger] connection_map(e).contains_key(k) implies connection_map(
                            e,
                        )[k] == connection_map(old_entries)[k] by {
                            let j = choose|j: int| 0 <= j < e.len() && e[j].0 == k;
                            let j2 = if j < i {
                                j
                            } else {
                                j + 1
                            };
                            assert(e[j] == old_entries[j2]);
                        }
                    }
                }
                self.connections = connections;
            },
            None => {
                proof {
                    assert(connection_map(old_entries) =~= connection_map(old_entries).remove(
                        (local, remote),
                    ));
                }
            },
        }
    }
}

impl Default for TcpConnectionManager {
    fn default() -> (r: Self)
        ensures
            r@ == Map::<ConnectionKey, TcpConnectionModel>::empty(),
            duration_nanos(r.timeout()) == 300_000_000_000,
    {
        Self::new()
    }
}

/// The entries of `entries` whose flag (by position) in `flags` is not set,
/// in order.
pub open spec fn kept_entries(entries: Seq<(ConnectionKey, TcpConnection)>, flags: Seq<bool>) -> Seq<
    (ConnectionKey, TcpConnection),
>
    decreases entries.len(),
{
    if entries.len() == 0 {
        Seq::empty()
    } else {
        let rest = kept_entries(entries.drop_last(), flags);
        if flags[entries.len() - 1] {
            rest
        } else {
            rest.push(entries.last())
        }
    }
}

/// Keeping the unflagged entries of a table with distinct keys keeps the
/// keys distinct and restricts the table to the unflagged keys.
proof fn lemma_kept_entries(entries: Seq<(ConnectionKey, TcpConnection)>, flags: Seq<bool>)
    requires
        keys_distinct(entries),
        entries.len() <= flags.len(),
    ensures
        keys_distinct(kept_entries(entries, flags)),
        forall|a: int|
            0 <= a < kept_entries(entries, flags).len() ==> exists|j: int|
                0 <= j < entries.len() && #[trigger] kept_entries(entries, flags)[a] == entries[j],
        connection_map(kept_entries(entries, flags)) == connection_map(entries).restrict(
            kept_keys(entries.map_values(|x: (ConnectionKey, TcpConnection)| x.0), flags),
        ),
    decreases entries.len(),
{
    let keys = entries.map_values(|x: (ConnectionKey, TcpConnection)| x.0);
    if entries.len() == 0 {
        assert(connection_map(entries).restrict(kept_keys(keys, flags)) =~= Map::empty());
    } else {
        let n = entries.len() - 1;
        let rest = entries.drop_last();
        let rkeys = rest.map_values(|x: (ConnectionKey, TcpConnection)| x.0);
        assert(keys_distinct(rest));
        lemma_kept_entries(rest, flags);
        let kr = kept_entries(rest, flags);
        let last = entries.last();
        assert forall|j: int| 0 <= j < rest.len() implies rest[j].0 != last.0 by {
            assert(rest[j] == entries[j]);
        }
        assert forall|a: int| 0 <= a < kr.len() implies kr[a].0 != last.0 by {
            let j = choose|j: int| 0 <= j < rest.len() && #[trigger] kr[a] == rest[j];
        }
        assert(kept_keys(rkeys, flags).contains(last.0) == false) by {
            if kept_keys(rkeys, flags).contains(last.0) {
                let i = choose|i: int|
                    0 <= i < rkeys.len() && i < flags.len() && rkeys[i] == last.0 && !flags[i];
                assert(rest[i].0 == last.0);
            }
        }
        let kk = kept_keys(keys, flags);
        assert forall|k: ConnectionKey| k != last.0 implies (kk.contains(k) == kept_keys(rkeys, flags).contains(k)) by {
            if kk.contains(k) {
                let i = choose|i: int| 0 <= i < keys.len() && i < flags.len() && keys[i] == k && !flags[i];
                assert(i < n);
                assert(rkeys[i] == k);
            }
            if kept_keys(rkeys, flags).contains(k) {
                let i = choose|i: int| 0 <= i < rkeys.len() && i < flags.len() && rkeys[i] == k && !flags[i];
                assert(keys[i] == k);
            }
        }
        assert(kk.contains(last.0) == !flags[n]) by {
            assert(keys[n] == last.0);
            if kk.contains(last.0) {
                let i = choose|i: int| 0 <= i < keys.len() && i < flags.len() && keys[i] == last.0 && !flags[i];
                if i < n {
                    assert(entries[i].0 == last.0);
                    assert(entries[i] == rest[i]);
                }
            }
        }
        let cm_rest = connection_map(rest);
        assert(connection_map(entries) == cm_rest.insert(last.0, last.1@));
        if flags[n] {
            assert(kept_entries(entries, flags) == kr);
            assert(connection_map(entries).restrict(kk) =~= cm_rest.restrict(kept_keys(rkeys, flags)));
        } else {
            let ke = kept_entries(entries, flags);
            assert(ke == kr.push(last));
            assert(ke.drop_last() =~= kr);
            assert(connection_map(ke) == connection_map(kr).insert(last.0, last.1@));
            assert(connection_map(entries).restrict(kk) =~= cm_rest.restrict(
                kept_keys(rkeys, flags),
            ).insert(last.0, last.1@));
            assert forall|a: int, b: int|
                0 <= a < ke.len() && 0 <= b < ke.len() && a != b implies ke[a].0 != ke[b].0 by {
                if a < kr.len() && b < kr.len() {
                    assert(ke[a] == kr[a] && ke[b] == kr[b]);
                } else if a < kr.len() {
                    assert(ke[a] == kr[a]);
                } else {
                    assert(ke[b] == kr[b]);
                }
            }
            assert forall|a: int| 0 <= a < ke.len() implies exists|j: int|
                0 <= j < entries.len() && #[trigger] ke[a] == entries[j] by {
                if a < kr.len() {
                    let j = choose|j: int| 0 <= j < rest.len() && #[trigger] kr[a] == rest[j];
                    assert(ke[a] == kr[a] && rest[j] == entries[j]);
                } else {
                    assert(ke[a] == entries[n]);
                }
            }
        }
        if flags[n] {
            assert forall|a: int| 0 <= a < kr.len() implies exists|j: int|
                0 <= j < entries.len() && #[trigger] kr[a] == entries[j] by {
                let j = choose|j: int| 0 <= j < rest.len() && #[trigger] kr[a] == rest[j];
                assert(rest[j] == entries[j]);
            }
        }
    }
}

/// The keys of `keys` whose flag in `expired` is not set.
pub open spec fn kept_keys(keys: Seq<ConnectionKey>, expired: Seq<bool>) -> Set<ConnectionKey> {
    Set::new(
        |k: ConnectionKey|
            exists|i: int| 0 <= i < keys.len() && i < expired.len() && keys[i] == k && !expired[i],
    )
}

/// What handling `seg` for the connection `c` stored (or about to be stored)
/// under `key` does to the table `table`: the table becomes `new_table` and
/// the answer is `responses`. A connection that ends up closed leaves the
/// table.
pub open spec fn table_after_segment(
    table: Map<ConnectionKey, TcpConnectionModel>,
    key: ConnectionKey,
    c: TcpConnectionModel,
    seg: TcpSegmentModel,
    new_table: Map<ConnectionKey, TcpConnectionModel>,
    responses: Seq<TcpSegmentModel>,
) -> bool {
    let (c1, rs) = handle_segment_spec(c, seg);
    &&& responses == rs
    &&& new_table == if c1.state == TcpState::Closed {
        table.remove(key)
    } else {
        table.insert(key, c1)
    }
}

impl TcpConnectionManager {
    /// The keys of the stored connections, in table order: the order in
    /// which `retain_flagged` reads its flags.
    pub closed spec fn entry_keys(self) -> Seq<ConnectionKey> {
        self.connections@.map_values(|e: (ConnectionKey, TcpConnection)| e.0)
    }

    /// The keys of the stored connections, in table order; each key of the
    /// table occurs once.
    pub fn connection_keys(&self) -> (r: Vec<ConnectionKey>)
        ensures
            r@ == self.entry_keys(),
            r@.no_duplicates(),
            forall|k: ConnectionKey| self@.contains_key(k) <==> r@.contains(k),
    {
        proof {
            use_type_invariant(self);
            lemma_connection_map(self.connections@);
        }
        let mut keys: Vec<ConnectionKey> = Vec::new();
        let mut i: usize = 0;
        while i < self.connections.len()
            invariant
                i <= self.connections@.len(),
                keys@ == self.entry_keys().take(i as int),
            decreases self.connections@.len() - i,
        {
            keys.push(self.connections[i].0);
            i = i + 1;
            assert(keys@ =~= self.entry_keys().take(i as int));
        }
        proof {
            let e = self.connections@;
            assert(keys@ =~= self.entry_keys());
            assert forall|a: int, b: int| 0 <= a < keys@.len() && 0 <= b < keys@.len() && a != b
                implies keys@[a] != keys@[b] by {
                assert(keys@[a] == e[a].0 && keys@[b] == e[b].0);
            }
            assert forall|k: ConnectionKey| self@.contains_key(k) <==> keys@.contains(k) by {
                if self@.contains_key(k) {
                    let j = choose|j: int| 0 <= j < e.len() && e[j].0 == k;
                    assert(keys@[j] == k);
                }
                if keys@.contains(k) {
                    let j = choose|j: int| 0 <= j < keys@.len() && keys@[j] == k;
                    assert(e[j].0 == k);
                }
            }
        }
        keys
    }

    /// Drops the connections whose flag is set: `expired[i]` belongs to the
    /// `i`-th key of `connection_keys`. The others are kept unchanged.
    pub fn retain_flagged(&mut self, expired: &Vec<bool>)
        requires
            expired@.len() == old(self).entry_keys().len(),
        ensures
            final(self)@ == old(self)@.restrict(kept_keys(old(self).entry_keys(), expired@)),
            final(self).timeout() == old(self).timeout(),
    {
        proof {
            use_type_invariant(&*self);
            lemma_connection_map(self.connections@);
        }
        let ghost orig = self.connections@;
        let mut remaining = Vec::new();
        std::mem::swap(&mut remaining, &mut self.connections);
        let mut kept: Vec<(ConnectionKey, TcpConnection)> = Vec::new();
        let mut processed: usize = 0;
        assert(orig.take(0) =~= Seq::<(ConnectionKey, TcpConnection)>::empty());
        assert(remaining@ =~= orig.skip(0));
        let total: usize = expired.len();
        while remaining.len() > 0
            invariant
                orig.len() == expired@.len(),
                orig.len() == total,
                0 <= processed <= orig.len(),
                remaining@ == orig.skip(processed as int),
                kept@ == kept_entries(orig.take(processed as int), expired@),
            decreases remaining@.len(),
        {
            proof {
                assert(orig.skip(processed as int).len() == orig.len() - processed);
            }
            let entry = remaining.remove(0);
            let p = processed;
            proof {
                assert(entry == orig[p as int]);
                assert(orig.take(p + 1).drop_last() =~= orig.take(p as int));
                assert(orig.take(p + 1).last() == orig[p as int]);
            }
            processed = processed + 1;
            proof {
                assert(remaining@ =~= orig.skip(processed as int));
            }
            if !expired[p] {
                kept.push(entry);
            }
        }
        proof {
            assert(orig.take(processed as int) =~= orig);
            lemma_kept_entries(orig, expired@);
            assert(orig.map_values(|x: (ConnectionKey, TcpConnection)| x.0) == old(self).entry_keys());
        }
        self.connections = kept;
    }

    /// Drops every connection idle for longer than the table's timeout: the
    /// clock is read once per connection (`TcpConnection::is_expired` with
    /// the table's timeout), and `retain_flagged` drops those found expired.
    /// Which ones that is depends on the clock; the others are kept
    /// unchanged.
    pub fn cleanup_expired_connections(&mut self)
        ensures
            exists|expired: Seq<bool>|
                expired.len() == old(self).entry_keys().len() && #[trigger] final(self)@
                    == old(self)@.restrict(kept_keys(old(self).entry_keys(), expired)),
            final(self).timeout() == old(self).timeout(),
    {
        let mut expired: Vec<bool> = Vec::new();
        let mut i: usize = 0;
        while i < self.connections.len()
            invariant
                i <= self.connections@.len(),
                expired@.len() == i,
            decreases self.connections@.len() - i,
        {
            let flag = self.connections[i].1.is_expired(self.connection_timeout);
            expired.push(flag);
            i = i + 1;
        }
        proof {
            assert(self.entry_keys().len() == self.connections@.len());
        }
        self.retain_flagged(&expired);
    }

    /// Delivers `segment` for the connection from `local` to `remote`: a
    /// known connection runs its state machine; an unknown one starts as a
    /// fresh listening connection (with a random initial sequence number).
    /// The connection is stored back, or dropped if it ends up closed, and
    /// the segments to send are returned.
    pub fn handle_segment(
        &mut self,
        segment: TcpSegment,
        local: SocketAddress,
        remote: SocketAddress,
    ) -> (r: NetResult<Vec<TcpSegment>>)
        requires
            old(self)@.contains_key((local, remote)) ==> !segment_overflows(
                old(self)@[(local, remote)],
                segment@,
            ),
            !old(self)@.contains_key((local, remote)) ==> !segment_overflows(
                fresh_connection(TcpState::Listen, local, remote, 0),
                segment@,
            ),
        ensures
            final(self).timeout() == old(self).timeout(),
            r is Ok,
            old(self)@.contains_key((local, remote)) ==> (r matches Ok(responses)
                && table_after_segment(
                old(self)@,
                (local, remote),
                old(self)@[(local, remote)],
                segment@,
                final(self)@,
                segment_views(responses@),
            )),
            !old(self)@.contains_key((local, remote)) ==> (r matches Ok(responses) && exists|
                initial_seq: u32,
            |
                table_after_segment(
                    old(self)@,
                    (local, remote),
                    fresh_connection(TcpState::Listen, local, remote, initial_seq),
                    segment@,
                    final(self)@,
                    segment_views(responses@),
                )),
    {
        let mut connection = match self.get_connection(local, remote) {
            Some(c) => c,
            None => {
                let mut conn = TcpConnection::new(local, remote);
                conn.state = TcpState::Listen;
                conn
            },
        };
        let ghost c0 = connection@;

        let responses = connection.handle_segment(&segment)?;

        if connection.state == TcpState::Closed {
            self.remove_connection(local, remote);
        } else {
            self.update_connection(local, remote, connection);
        }
        proof {
            if !old(self)@.contains_key((local, remote)) {
                assert(c0 == fresh_connection(TcpState::Listen, local, remote, c0.local_seq));
                assert(table_after_segment(
                    old(self)@,
                    (local, remote),
                    fresh_connection(TcpState::Listen, local, remote, c0.local_seq),
                    segment@,
                    self@,
                    segment_views(responses@),
                ));
            }
        }
        Ok(responses)
    }
}

} // verus!
