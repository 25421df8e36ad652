//! Packet buffers: a read cursor over received bytes, a builder for outgoing
//! bytes, and the Internet checksum.
use bytes::{Bytes, BytesMut};
use vstd::prelude::*;

use crate::addr::{Ipv4Address, Ipv6Address};
use crate::buffer::{
    bytes_as_slice, bytes_clone, bytes_contents, bytes_from_vec, bytes_len, bytes_mut_contents,
    bytes_mut_freeze, bytes_mut_len, bytes_mut_limit, bytes_mut_put_slice, bytes_mut_put_u16,
    bytes_mut_put_u32, bytes_mut_put_u8, bytes_mut_with_capacity, bytes_slice,
};
use crate::error::{NetError, NetResult};
use crate::wire::{be16, lemma_be16, lemma_be32, be32, u16_bytes, u32_bytes, u16_from_be, u32_from_be};

verus! {

/// Maximum transmission unit of Ethernet.
pub const MTU: usize = 1500;

/// Received bytes with a read position; only the bytes from the position on
/// are visible.
#[derive(Debug)]
pub struct Packet {
    data: Bytes,
    offset: usize,
}

impl View for Packet {
    type V = Seq<u8>;

    /// The bytes not yet read.
    closed spec fn view(&self) -> Seq<u8> {
        bytes_contents(self.data).subrange(self.offset as int, bytes_contents(self.data).len() as int)
    }
}

impl Packet {
    #[verifier::type_invariant]
    spec fn offset_in_bounds(self) -> bool {
        &&& self.offset <= bytes_contents(self.data).len()
        &&& bytes_contents(self.data).len() <= usize::MAX
    }

    /// A packet showing all of `data`.
    pub fn new(data: Bytes) -> (r: Packet)
        ensures
            r@ == bytes_contents(data),
    {
        // The length of any buffer fits in a `usize`.
        let _len = bytes_len(&data);
        let r = Packet { data, offset: 0 };
        assert(r@ =~= bytes_contents(data));
        r
    }

    /// A packet showing the bytes of `data`.
    pub fn from_vec(data: Vec<u8>) -> (r: Packet)
        ensures
            r@ == data@,
    {
        Self::new(bytes_from_vec(data))
    }

    /// The number of bytes not yet read.
    pub fn len(&self) -> (r: usize)
        ensures
            r == self@.len(),
    {
        proof {
            use_type_invariant(self);
        }
        bytes_len(&self.data) - self.offset
    }

    /// Whether every byte has been read.
    pub fn is_empty(&self) -> (r: bool)
        ensures
            r == (self@.len() == 0),
    {
        self.len() == 0
    }

    /// The bytes not yet read.
    pub fn as_slice(&self) -> (r: &[u8])
        ensures
            r@ == self@,
    {
        proof {
            use_type_invariant(self);
        }
        let all = bytes_as_slice(&self.data);
        &all[self.offset..all.len()]
    }

    /// Moves the read position forward by `count` bytes; fails with
    /// `BufferOverflow`, reading nothing, when fewer remain.
    pub fn advance(&mut self, count: usize) -> (r: NetResult<()>)
        ensures
            count > old(self)@.len() ==> (r matches Err(NetError::BufferOverflow) && final(self)@
                == old(self)@),
            count <= old(self)@.len() ==> r is Ok && final(self)@ == old(self)@.skip(count as int),
    {
        proof {
            use_type_invariant(&*self);
        }
        if count > self.len() {
            return Err(NetError::BufferOverflow);
        }
        self.offset = self.offset + count;
        assert(self@ =~= old(self)@.skip(count as int));
        Ok(())
    }

    /// The byte `index` places after the read position; fails with
    /// `BufferOverflow` past the end.
    pub fn peek(&self, index: usize) -> (r: NetResult<u8>)
        ensures
            index >= self@.len() ==> (r matches Err(NetError::BufferOverflow)),
            index < self@.len() ==> r == Ok::<u8, NetError>(self@[index as int]),
    {
        proof {
            use_type_invariant(self);
        }
        if index >= self.len() {
            return Err(NetError::BufferOverflow);
        }
        Ok(bytes_as_slice(&self.data)[self.offset + index])
    }

    /// Reads one byte.
    pub fn read_u8(&mut self) -> (r: NetResult<u8>)
        ensures
            old(self)@.len() < 1 ==> (r matches Err(NetError::BufferOverflow) && final(self)@
                == old(self)@),
            old(self)@.len() >= 1 ==> r == Ok::<u8, NetError>(old(self)@[0]) && final(self)@
                == old(self)@.skip(1),
    {
        proof {
            use_type_invariant(&*self);
        }
        if self.len() < 1 {
            return Err(NetError::BufferOverflow);
        }
        let value = bytes_as_slice(&self.data)[self.offset];
        self.offset = self.offset + 1;
        assert(self@ =~= old(self)@.skip(1));
        Ok(value)
    }

    /// Reads two bytes as a number in network order.
    pub fn read_u16(&mut self) -> (r: NetResult<u16>)
        ensures
            old(self)@.len() < 2 ==> (r matches Err(NetError::BufferOverflow) && final(self)@
                == old(self)@),
            old(self)@.len() >= 2 ==> r == Ok::<u16, NetError>(be16(old(self)@[0], old(self)@[1]))
                && final(self)@ == old(self)@.skip(2),
    {
        proof {
            use_type_invariant(&*self);
        }
        if self.len() < 2 {
            return Err(NetError::BufferOverflow);
        }
        let all = bytes_as_slice(&self.data);
        let value = u16_from_be(all[self.offset], all[self.offset + 1]);
        self.offset = self.offset + 2;
        assert(self@ =~= old(self)@.skip(2));
        Ok(value)
    }

    /// Reads four bytes as a number in network order.
    pub fn read_u32(&mut self) -> (r: NetResult<u32>)
        ensures
            old(self)@.len() < 4 ==> (r matches Err(NetError::BufferOverflow) && final(self)@
                == old(self)@),
            old(self)@.len() >= 4 ==> r == Ok::<u32, NetError>(be32(old(self)@.take(4)))
                && final(self)@ == old(self)@.skip(4),
    {
        proof {
            use_type_invariant(&*self);
        }
        if self.len() < 4 {
            return Err(NetError::BufferOverflow);
        }
        let all = bytes_as_slice(&self.data);
        let o = self.offset;
        let value = u32_from_be(all[o], all[o + 1], all[o + 2], all[o + 3]);
        self.offset = self.offset + 4;
        assert(self@ =~= old(self)@.skip(4));
        assert(seq![all@[o as int], all@[o + 1], all@[o + 2], all@[o + 3]] =~= old(self)@.take(4));
        Ok(value)
    }

    /// Reads `count` bytes.
    pub fn read_bytes(&mut self, count: usize) -> (r: NetResult<Bytes>)
        ensures
            old(self)@.len() < count ==> (r matches Err(NetError::BufferOverflow) && final(self)@
                == old(self)@),
            old(self)@.len() >= count ==> (r matches Ok(b) && bytes_contents(b) == old(self)@.take(count as int) && final(self)@ == old(self)@.skip(count as int)),
    {
        proof {
            use_type_invariant(&*self);
        }
        if self.len() < count {
            return Err(NetError::BufferOverflow);
        }
        let bytes = bytes_slice(&self.data, self.offset, self.offset + count);
        self.offset = self.offset + count;
        assert(self@ =~= old(self)@.skip(count as int));
        assert(bytes_contents(bytes) =~= old(self)@.take(count as int));
        Ok(bytes)
    }

    /// Two packets over the same bytes: the first still shows every unread
    /// byte, the second starts `index` bytes later.
    pub fn split_at(&self, index: usize) -> (r: NetResult<(Packet, Packet)>)
        ensures
            index > self@.len() ==> (r matches Err(NetError::BufferOverflow)),
            index <= self@.len() ==> (r matches Ok((left, right)) && left@ == self@ && right@
                == self@.skip(index as int)),
    {
        proof {
            use_type_invariant(self);
        }
        if index > self.len() {
            return Err(NetError::BufferOverflow);
        }
        let left = Packet { data: bytes_clone(&self.data), offset: self.offset };
        let right = Packet { data: bytes_clone(&self.data), offset: self.offset + index };
        assert(right@ =~= self@.skip(index as int));
        Ok((left, right))
    }
}

impl Clone for Packet {
    fn clone(&self) -> (r: Packet)
        ensures
            r@ == self@,
    {
        proof {
            use_type_invariant(self);
        }
        Packet { data: bytes_clone(&self.data), offset: self.offset }
    }
}

/// A growing buffer of outgoing bytes.
pub struct PacketBuilder {
    buffer: BytesMut,
}

impl View for PacketBuilder {
    type V = Seq<u8>;

    /// The bytes written so far.
    closed spec fn view(&self) -> Seq<u8> {
        bytes_mut_contents(self.buffer)
    }
}

impl PacketBuilder {
    /// An empty builder with room for one MTU.
    pub fn new() -> (r: PacketBuilder)
        ensures
            r@ == Seq::<u8>::empty(),
    {
        PacketBuilder { buffer: bytes_mut_with_capacity(MTU) }
    }

    /// An empty builder with room for `capacity` bytes.
    pub fn with_capacity(capacity: usize) -> (r: PacketBuilder)
        ensures
            r@ == Seq::<u8>::empty(),
    {
        PacketBuilder { buffer: bytes_mut_with_capacity(capacity) }
    }

    /// Appends one byte.
    pub fn write_u8(&mut self, value: u8)
        requires
            old(self)@.len() + 1 <= bytes_mut_limit(),
        ensures
            final(self)@ == old(self)@.push(value),
    {
        bytes_mut_put_u8(&mut self.buffer, value);
    }

    /// Appends two bytes in network order.
    pub fn write_u16(&mut self, value: u16)
        requires
            old(self)@.len() + 2 <= bytes_mut_limit(),
        ensures
            final(self)@ == old(self)@ + u16_bytes(value),
    {
        bytes_mut_put_u16(&mut self.buffer, value);
    }

    /// Appends four bytes in network order.
    pub fn write_u32(&mut self, value: u32)
        requires
            old(self)@.len() + 4 <= bytes_mut_limit(),
        ensures
            final(self)@ == old(self)@ + u32_bytes(value),
    {
        bytes_mut_put_u32(&mut self.buffer, value);
    }

    /// Appends `bytes`.
    pub fn write_bytes(&mut self, bytes: &[u8])
        requires
            old(self)@.len() + bytes@.len() <= bytes_mut_limit(),
        ensures
            final(self)@ == old(self)@ + bytes@,
    {
        bytes_mut_put_slice(&mut self.buffer, bytes);
    }

    /// Appends the four octets of `addr`.
    pub fn write_ipv4(&mut self, addr: Ipv4Address)
        requires
            old(self)@.len() + 4 <= bytes_mut_limit(),
        ensures
            final(self)@ == old(self)@ + addr.octets_spec(),
    {
        let octets = addr.octets();
        self.write_bytes(&octets);
    }

    /// Appends the sixteen octets of `addr`.
    pub fn write_ipv6(&mut self, addr: Ipv6Address)
        requires
            old(self)@.len() + 16 <= bytes_mut_limit(),
        ensures
            final(self)@ == old(self)@ + addr.octets_spec(),
    {
        let octets = addr.octets();
        self.write_bytes(&octets);
    }

    /// The number of bytes written.
    pub fn len(&self) -> (r: usize)
        ensures
            r == self@.len(),
    {
        bytes_mut_len(&self.buffer)
    }

    /// A packet showing the bytes written.
    pub fn build(self) -> (r: Packet)
        ensures
            r@ == self@,
    {
        Packet::new(bytes_mut_freeze(self.buffer))
    }
}

impl Default for PacketBuilder {
    fn default() -> (r: PacketBuilder)
        ensures
            r@ == Seq::<u8>::empty(),
    {
        Self::new()
    }
}

/// The sum of the 16-bit words of `s` in network order; an odd final byte
/// counts as the high byte of a last word.
pub open spec fn word_sum(s: Seq<u8>) -> nat
    decreases s.len(),
{
    if s.len() == 0 {
        0
    } else if s.len() == 1 {
        s[0] as nat * 256
    } else {
        be16(s[0], s[1]) as nat + word_sum(s.skip(2))
    }
}

/// The word sum of `s` is at most 65535 per byte, so the sum of any buffer
/// of at most 65537 bytes fits in 32 bits (as `internet_checksum` needs).
pub proof fn lemma_word_sum_bound(s: Seq<u8>)
    ensures
        word_sum(s) <= 65535 * s.len(),
        s.len() <= 65537 ==> word_sum(s) <= u32::MAX,
    decreases s.len(),
{
    if s.len() >= 2 {
        lemma_word_sum_bound(s.skip(2));
    }
    if s.len() <= 65537 {
        assert(65535 * s.len() <= 65535 * 65537) by (nonlinear_arith)
            requires
                s.len() <= 65537,
        ;
    }
}

/// Adds the carries above 16 bits back into the low 16 bits until none is left.
pub open spec fn fold_carries(n: nat) -> nat
    decreases n,
{
    if n < 0x10000 {
        n
    } else {
        fold_carries(n % 0x10000 + n / 0x10000)
    }
}

/// The Internet checksum (RFC 1071) of `s`: the ones' complement of the
/// ones' complement sum of its 16-bit words.
pub open spec fn checksum_of(s: Seq<u8>) -> u16 {
    (0xFFFF - fold_carries(word_sum(s))) as u16
}

/// `s` with the two bytes of `v` written at `k` and `k + 1`.
pub open spec fn with_u16_at(s: Seq<u8>, k: int, v: u16) -> Seq<u8> {
    s.update(k, (v / 256) as u8).update(k + 1, (v % 256) as u8)
}

/// Calculates the Internet checksum (RFC 1071) of `data`.
pub fn internet_checksum(data: &[u8]) -> (r: u16)
    requires
        data@.len() >= 1,
        word_sum(data@) <= u32::MAX,
    ensures
        r == checksum_of(data@),
{
    let mut sum: u32 = 0;
    let mut i: usize = 0;
    assert(data@.skip(0) =~= data@);

    // sum all 16-bit words
    while i < data.len() - 1
        invariant
            data@.len() >= 1,
            i <= data@.len(),
            i % 2 == 0,
            sum + word_sum(data@.skip(i as int)) == word_sum(data@),
            word_sum(data@) <= u32::MAX,
        decreases data@.len() - i,
    {
        proof {
            assert(data@.skip(i as int).skip(2) =~= data@.skip(i + 2));
            assert(data@.skip(i as int)[0] == data@[i as int]);
            assert(data@.skip(i as int)[1] == data@[i + 1]);
        }
        sum = sum + u16_from_be(data[i], data[i + 1]) as u32;
        i = i + 2;
    }

    // add the odd byte, if there is one
    if i < data.len() {
        proof {
            assert(data@.skip(i as int).len() == 1);
            assert(data@.skip(i as int)[0] == data@[i as int]);
        }
        let b = data[i];
        assert(((b as u32) << 8u32) == (b as u32) * 256) by (bit_vector);
        sum = sum + ((b as u32) << 8);
    } else {
        assert(data@.skip(i as int).len() == 0);
    }

    // fold the carries back in
    while sum >> 16 != 0
        invariant
            fold_carries(sum as nat) == fold_carries(word_sum(data@)),
        decreases sum,
    {
        assert(sum >> 16u32 == sum / 0x10000 && sum & 0xFFFFu32 == sum % 0x10000) by (bit_vector);
        sum = (sum & 0xFFFF) + (sum >> 16);
    }
    assert(sum >> 16u32 == 0 ==> sum < 0x10000) by (bit_vector);
    assert(sum < 0x10000 ==> (!sum) as u16 == (0xFFFFu32 - sum) as u16) by (bit_vector);
    assert(fold_carries(sum as nat) == sum);
    assert(checksum_of(data@) == (0xFFFF - sum) as u16);
    !sum as u16
}

/// Changing the word at even position `k` changes the word sum by the
/// difference of the two words.
pub proof fn lemma_word_sum_update(s: Seq<u8>, k: int, v: u16)
    requires
        0 <= k,
        k % 2 == 0,
        k + 1 < s.len(),
    ensures
        word_sum(with_u16_at(s, k, v)) + be16(s[k], s[k + 1]) == word_sum(s) + v,
    decreases k,
{
    let t = with_u16_at(s, k, v);
    lemma_be16((v / 256) as u8, (v % 256) as u8);
    if k == 0 {
        assert(t.skip(2) =~= s.skip(2));
    } else {
        assert(t.skip(2) =~= with_u16_at(s.skip(2), k - 2, v));
        lemma_word_sum_update(s.skip(2), k - 2, v);
    }
}

/// Folding the carries keeps the value modulo 65535, gives at most 65535,
/// and gives 0 only for 0.
pub proof fn lemma_fold_carries(n: nat)
    ensures
        fold_carries(n) % 65535 == n % 65535,
        fold_carries(n) <= 65535,
        n > 0 ==> fold_carries(n) >= 1,
    decreases n,
{
    if n >= 0x10000 {
        let m = n % 0x10000 + n / 0x10000;
        lemma_fold_carries(m);
        let q = n / 0x10000;
        let r = n % 0x10000;
        assert(n == 0x10000 * q + r);
        assert(n == 65535 * q + m);
        vstd::arithmetic::div_mod::lemma_mod_multiples_vanish(q as int, m as int, 65535);
    }
}

/// The checksum law: writing the checksum of `s` into the zeroed word at even
/// position `k` yields bytes whose checksum is zero, which is how a receiver
/// verifies them.
pub proof fn lemma_checksum_verifies(s: Seq<u8>, k: int)
    requires
        0 <= k,
        k % 2 == 0,
        k + 1 < s.len(),
        s[k] == 0,
        s[k + 1] == 0,
    ensures
        checksum_of(with_u16_at(s, k, checksum_of(s))) == 0,
{
    let total = word_sum(s);
    let f = fold_carries(total);
    lemma_fold_carries(total);
    let c = checksum_of(s);
    assert(c == 65535 - f);
    lemma_word_sum_update(s, k, c);
    lemma_be16(0, 0);
    let t = with_u16_at(s, k, c);
    assert(word_sum(t) == total + c);
    if total == 0 {
        assert(f == 0) by {
            assert(fold_carries(0) == 0);
        }
    }
    assert(word_sum(t) > 0);
    lemma_fold_carries(word_sum(t));
    assert((total + c) % 65535 == 0) by {
        let d = total % 65535;
        assert(f % 65535 == d);
        vstd::arithmetic::div_mod::lemma_fundamental_div_mod(total as int, 65535);
        vstd::arithmetic::div_mod::lemma_fundamental_div_mod(f as int, 65535);
        let qt = total / 65535;
        let qf = f as int / 65535;
        assert(total + c == 65535 * qt + d + 65535 - f);
        assert(f == 65535 * qf + d);
        assert(total + c == 65535 * (qt - qf + 1));
        vstd::arithmetic::div_mod::lemma_mod_multiples_basic(qt - qf + 1, 65535);
    }
    assert(fold_carries(word_sum(t)) == 65535);
}

} // verus!
