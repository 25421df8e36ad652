//! IP and socket addresses as plain values.
use vstd::prelude::*;

use crate::wire::{
    be32, be_bytes, be_value, lemma_be32, lemma_be_bytes_index, lemma_be_bytes_len,
    lemma_be_bytes_of_value, lemma_be_value_bound, lemma_be_value_of_bytes, lemma_pow256_monotone,
    lemma_pow256_positive, lemma_u32_bytes, pow256, u32_bytes, u32_from_be, u32_to_be,
};

verus! {

/// An IPv4 address, held as its 32-bit value (first octet most significant).
#[derive(Clone, Copy, Debug, PartialEq, Eq, Structural, Hash)]
pub struct Ipv4Address(pub u32);

/// An IPv6 address, held as its 128-bit value (first octet most significant).
#[derive(Clone, Copy, Debug, PartialEq, Eq, Structural, Hash)]
pub struct Ipv6Address(pub u128);

/// An IPv4 or IPv6 address.
#[derive(Clone, Copy, Debug, PartialEq, Eq, Structural, Hash)]
pub enum IpAddress {
    V4(Ipv4Address),
    V6(Ipv6Address),
}

/// An IP address together with a port.
#[derive(Clone, Copy, Debug, PartialEq, Eq, Structural, Hash)]
pub struct SocketAddress {
    pub ip: IpAddress,
    pub port: u16,
}

impl Ipv4Address {
    /// The address `a.b.c.d`.
    pub fn new(a: u8, b: u8, c: u8, d: u8) -> (r: Ipv4Address)
        ensures
            r.0 == be32(seq![a, b, c, d]),
            r.octets_spec() == seq![a, b, c, d],
    {
        proof {
            lemma_be32(seq![a, b, c, d]);
        }
        Ipv4Address(u32_from_be(a, b, c, d))
    }

    /// The four octets, first octet first.
    pub open spec fn octets_spec(self) -> Seq<u8> {
        u32_bytes(self.0)
    }

    /// The address whose octets are `o`.
    pub fn from_octets(o: [u8; 4]) -> (r: Ipv4Address)
        ensures
            r.0 == be32(o@),
            r.octets_spec() == o@,
    {
        proof {
            lemma_be32(o@);
        }
        Ipv4Address(u32_from_be(o[0], o[1], o[2], o[3]))
    }

    /// The four octets, first octet first.
    pub fn octets(&self) -> (r: [u8; 4])
        ensures
            r@ == self.octets_spec(),
            be32(r@) == self.0,
    {
        proof {
            lemma_u32_bytes(self.0);
        }
        u32_to_be(self.0)
    }
}

/// The `n`-th octet (counting from 0, most significant first) of a 128-bit value.
pub open spec fn octet_of_u128(v: u128, n: int) -> u8 {
    ((v as nat / pow256((15 - n) as nat)) % 256) as u8
}

impl Ipv6Address {
    /// The sixteen octets, first octet first.
    pub open spec fn octets_spec(self) -> Seq<u8> {
        be_bytes(self.0 as nat, 16)
    }

    /// The address whose octets are `o`.
    pub fn from_octets(o: [u8; 16]) -> (r: Ipv6Address)
        ensures
            r.0 == be_value(o@),
            r.octets_spec() == o@,
    {
        let mut v: u128 = 0;
        let mut i: usize = 0;
        while i < 16
            invariant
                i <= 16,
                v == be_value(o@.take(i as int)),
            decreases 16 - i,
        {
            proof {
                lemma_be_value_bound(o@.take(i as int));
                assert(pow256(i as nat) <= pow256(15)) by {
                    lemma_pow256_monotone(i as nat, 15);
                }
                assert(pow256(15) * 256 == pow256(16));
                assert(pow256(16) == 0x1_0000_0000_0000_0000_0000_0000_0000_0000) by {
                    reveal_with_fuel(pow256, 17);
                }
                assert(o@.take(i + 1).drop_last() =~= o@.take(i as int));
            }
            v = v * 256 + o[i] as u128;
            i = i + 1;
        }
        proof {
            assert(o@.take(16) =~= o@);
            lemma_be_bytes_of_value(o@);
        }
        Ipv6Address(v)
    }

    /// The sixteen octets, first octet first.
    pub fn octets(&self) -> (r: [u8; 16])
        ensures
            r@ == self.octets_spec(),
            be_value(r@) == self.0,
    {
        let mut bytes: Vec<u8> = Vec::new();
        let mut k: usize = 0;
        let mut rest: u128 = self.0;
        proof {
            lemma_be_bytes_len(self.0 as nat, 16);
            assert(pow256(0) == 1);
            assert(bytes@ =~= be_bytes(self.0 as nat, 16).subrange(16, 16));
        }
        while k < 16
            invariant
                k <= 16,
                bytes@.len() == k,
                bytes@ == be_bytes(self.0 as nat, 16).subrange(16 - k, 16),
                rest as nat == self.0 as nat / pow256(k as nat),
            decreases 16 - k,
        {
            proof {
                lemma_be_bytes_index(self.0 as nat, 16, 15 - k as int);
                lemma_be_bytes_len(self.0 as nat, 16);
                lemma_pow256_positive(k as nat);
                vstd::arithmetic::div_mod::lemma_div_denominator(
                    self.0 as int,
                    pow256(k as nat) as int,
                    256,
                );
                assert(pow256((k + 1) as nat) == pow256(k as nat) * 256);
            }
            let ghost old_bytes = bytes@;
            bytes.insert(0, (rest % 256) as u8);
            rest = rest / 256;
            k = k + 1;
            assert(bytes@ =~= be_bytes(self.0 as nat, 16).subrange(16 - k, 16));
        }
        proof {
            lemma_be_bytes_len(self.0 as nat, 16);
            assert(bytes@ =~= be_bytes(self.0 as nat, 16));
            assert(pow256(16) == 0x1_0000_0000_0000_0000_0000_0000_0000_0000) by {
                reveal_with_fuel(pow256, 17);
            }
            lemma_be_value_of_bytes(self.0 as nat, 16);
        }
        [
            bytes[0],
            bytes[1],
            bytes[2],
            bytes[3],
            bytes[4],
            bytes[5],
            bytes[6],
            bytes[7],
            bytes[8],
            bytes[9],
            bytes[10],
            bytes[11],
            bytes[12],
            bytes[13],
            bytes[14],
            bytes[15],
        ]
    }
}

/// The sixteen octets of an IPv6 address spell its value.
pub proof fn lemma_ipv6_octets_value(a: Ipv6Address)
    ensures
        be_value(a.octets_spec()) == a.0,
        a.octets_spec().len() == 16,
{
    lemma_pow256_16();
    lemma_be_value_of_bytes(a.0 as nat, 16);
    lemma_be_bytes_len(a.0 as nat, 16);
}

/// `256` to the sixteenth is `2` to the 128th.
pub proof fn lemma_pow256_16()
    ensures
        pow256(16) == 0x1_0000_0000_0000_0000_0000_0000_0000_0000,
{
    reveal_with_fuel(pow256, 17);
}

impl SocketAddress {
    /// The address `ip` with port `port`.
    pub fn new(ip: IpAddress, port: u16) -> (r: SocketAddress)
        ensures
            r.ip == ip,
            r.port == port,
    {
        SocketAddress { ip, port }
    }

    /// The IP address.
    pub fn ip(&self) -> (r: IpAddress)
        ensures
            r == self.ip,
    {
        self.ip
    }

    /// The port.
    pub fn port(&self) -> (r: u16)
        ensures
            r == self.port,
    {
        self.port
    }
}

} // verus!
