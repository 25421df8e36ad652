//! Helpers: address arithmetic, netmasks, MAC address checks, ports and
//! random values.
use vstd::prelude::*;
use vstd::string::{StringExecFns, StringSliceAdditionalSpecFns};

use crate::addr::{IpAddress, Ipv4Address};
use crate::error::{NetError, NetResult};
use crate::ethernet::{MacAddress, MacTextVerdict, mac_text_verdict, validate_mac_bytes};
use crate::random::{random_bytes6, random_u16_in_range};
use crate::time::{duration_as_secs, duration_nanos, duration_since_unix_epoch, system_time_now};
use std::time::Duration;

verus! {

/// The address as bytes: four for IPv4, sixteen for IPv6.
pub fn ip_to_bytes(ip: &IpAddress) -> (r: Vec<u8>)
    ensures
        r@ == match *ip {
            IpAddress::V4(a) => a.octets_spec(),
            IpAddress::V6(a) => a.octets_spec(),
        },
{
    match ip {
        IpAddress::V4(ipv4) => {
            let o = ipv4.octets();
            vstd::slice::slice_to_vec(&o)
        },
        IpAddress::V6(ipv6) => {
            let o = ipv6.octets();
            vstd::slice::slice_to_vec(&o)
        },
    }
}

/// Whole seconds in `since_epoch`, the time since the Unix epoch; `None`
/// (a clock set before the epoch) counts as 0.
pub fn timestamp_from(since_epoch: Option<Duration>) -> (r: u64)
    ensures
        since_epoch is None ==> r == 0,
        since_epoch matches Some(d) ==> r == duration_nanos(d) / 1_000_000_000,
{
    match since_epoch {
        Some(d) => duration_as_secs(&d),
        None => 0,
    }
}

/// The current time as whole seconds since the Unix epoch (0 if the clock is
/// set earlier): the system clock is read once and `timestamp_from` does the
/// rest. The reading depends on the clock, so nothing is stated of the value.
pub fn current_timestamp_ms() -> (r: u64) {
    let now = system_time_now();
    let since_epoch = match duration_since_unix_epoch(&now) {
        Ok(d) => Some(d),
        Err(_) => None,
    };
    timestamp_from(since_epoch)
}

/// The bitwise OR of `ip` and `netmask`.
pub fn calculate_network(ip: &Ipv4Address, netmask: &Ipv4Address) -> (r: Ipv4Address)
    ensures
        r.0 == ip.0 | netmask.0,
{
    Ipv4Address(ip.0 | netmask.0)
}

/// The bitwise OR of `ip` and the complement of `netmask`.
pub fn calculate_broadcast(ip: &Ipv4Address, netmask: &Ipv4Address) -> (r: Ipv4Address)
    ensures
        r.0 == ip.0 | !netmask.0,
{
    Ipv4Address(ip.0 | !netmask.0)
}

/// Whether `calculate_network` gives the same address for both addresses.
pub fn same_network(ip1: &Ipv4Address, ip2: &Ipv4Address, netmask: &Ipv4Address) -> (r: bool)
    ensures
        r == (ip1.0 | netmask.0 == ip2.0 | netmask.0),
{
    let network1 = calculate_network(ip1, netmask);
    let network2 = calculate_network(ip2, netmask);
    network1 == network2
}

/// The netmask of a prefix length: `cidr` leading one bits.
pub open spec fn netmask_bits(cidr: u8) -> u32 {
    if cidr == 0 {
        0
    } else {
        u32::MAX << ((32 - cidr) as u32)
    }
}

/// The netmask with `cidr` leading one bits; fails for `cidr` above 32.
pub fn cidr_to_netmask(cidr: u8) -> (r: NetResult<Ipv4Address>)
    ensures
        cidr > 32 ==> (r matches Err(NetError::InvalidAddress(m)) && m@ == "invalid CIDR notation"@),
        cidr <= 32 ==> r == Ok::<Ipv4Address, NetError>(Ipv4Address(netmask_bits(cidr))),
{
    if cidr > 32 {
        return Err(NetError::InvalidAddress(String::from_str("invalid CIDR notation")));
    }

    let mask = if cidr == 0 {
        0
    } else {
        u32::MAX << (32 - cidr)
    };

    Ok(Ipv4Address(mask))
}

/// The number of one bits of `n`.
pub open spec fn ones(n: nat) -> nat
    decreases n,
{
    if n == 0 {
        0
    } else {
        n % 2 + ones(n / 2)
    }
}

proof fn lemma_ones_bound(n: nat, k: nat)
    requires
        n < vstd::arithmetic::power2::pow2(k),
    ensures
        ones(n) <= k,
    decreases k,
{
    if n > 0 {
        if k == 0 {
            vstd::arithmetic::power2::lemma2_to64();
        } else {
            vstd::arithmetic::power2::lemma_pow2_unfold(k);
            lemma_ones_bound(n / 2, (k - 1) as nat);
        }
    }
}

/// The prefix length of `netmask`: the number of one bits in it.
pub fn netmask_to_cidr(netmask: &Ipv4Address) -> (r: u8)
    ensures
        r == ones(netmask.0 as nat),
{
    let mut x: u32 = netmask.0;
    let mut count: u32 = 0;
    proof {
        vstd::arithmetic::power2::lemma2_to64();
        lemma_ones_bound(netmask.0 as nat, 32);
    }
    while x != 0
        invariant
            count + ones(x as nat) == ones(netmask.0 as nat),
            ones(netmask.0 as nat) <= 32,
        decreases x,
    {
        count = count + x % 2;
        x = x / 2;
    }
    count as u8
}

/// `n * 2^s` has as many one bits as `n`.
proof fn lemma_ones_shift(n: nat, s: nat)
    ensures
        ones(n * vstd::arithmetic::power2::pow2(s)) == ones(n),
    decreases s,
{
    if s == 0 {
        vstd::arithmetic::power2::lemma2_to64();
    } else {
        vstd::arithmetic::power2::lemma_pow2_unfold(s);
        let p = vstd::arithmetic::power2::pow2((s - 1) as nat);
        lemma_ones_shift(n, (s - 1) as nat);
        let m = n * p;
        assert(n * vstd::arithmetic::power2::pow2(s) == 2 * m) by (nonlinear_arith)
            requires
                vstd::arithmetic::power2::pow2(s) == 2 * p,
                m == n * p,
        ;
        if m > 0 {
            assert((2 * m) % 2 == 0 && (2 * m) / 2 == m);
        }
    }
}

/// `2^k - 1` has `k` one bits.
proof fn lemma_ones_low_mask(k: nat)
    ensures
        ones((vstd::arithmetic::power2::pow2(k) - 1) as nat) == k,
    decreases k,
{
    if k == 0 {
        vstd::arithmetic::power2::lemma2_to64();
    } else {
        vstd::arithmetic::power2::lemma_pow2_unfold(k);
        vstd::arithmetic::power2::lemma_pow2_pos((k - 1) as nat);
        lemma_ones_low_mask((k - 1) as nat);
        let q = vstd::arithmetic::power2::pow2((k - 1) as nat);
        let n = (vstd::arithmetic::power2::pow2(k) - 1) as nat;
        assert(n == 2 * (q - 1) + 1);
        assert(n % 2 == 1 && n / 2 == q - 1);
    }
}

/// Law: the netmask of a prefix length has that prefix length, for every
/// prefix length from 0 to 32.
pub proof fn lemma_cidr_netmask_roundtrip(cidr: u8)
    requires
        cidr <= 32,
    ensures
        ones(netmask_bits(cidr) as nat) == cidr,
{
    if cidr > 0 {
        let s: u32 = (32 - cidr) as u32;
        assert(s < 32 ==> (u32::MAX << s) as int + ((1u32 << s) as int - 1) == u32::MAX as int)
            by (bit_vector);
        vstd::arithmetic::power2::lemma_pow2_pos(s as nat);
        vstd::bits::lemma_u32_pow2_no_overflow(s as nat);
        vstd::bits::lemma_u32_shl_is_mul(1, s);
        let p = vstd::arithmetic::power2::pow2(s as nat);
        let c = vstd::arithmetic::power2::pow2(cidr as nat);
        vstd::arithmetic::power2::lemma_pow2_adds(cidr as nat, s as nat);
        vstd::arithmetic::power2::lemma2_to64();
        assert(cidr as nat + s as nat == 32);
        assert(c * p == 0x1_0000_0000);
        let mask = (u32::MAX << s) as nat;
        assert(mask == 0x1_0000_0000 - p);
        assert(mask == (c - 1) * p) by (nonlinear_arith)
            requires
                mask == 0x1_0000_0000 - p,
                c * p == 0x1_0000_0000,
        ;
        lemma_ones_shift((c - 1) as nat, s as nat);
        lemma_ones_low_mask(cidr as nat);
    }
}

/// A random, locally administered, unicast MAC address.
pub fn generate_random_mac() -> (r: MacAddress)
    ensures
        r@[0] % 4 == 2,
{
    mac_from_random_bytes(random_bytes6())
}

/// The MAC address made of `bytes` with the first byte's two lowest bits set
/// to "locally administered" and "unicast".
pub fn mac_from_random_bytes(bytes: [u8; 6]) -> (r: MacAddress)
    ensures
        r@ == bytes@.update(0, (bytes@[0] & 0xFE) | 0x02),
        r@[0] % 4 == 2,
{
    let mut bytes = bytes;
    let b = bytes[0];
    assert(((b & 0xFEu8) | 0x02u8) % 4 == 2) by (bit_vector);
    bytes[0] = (bytes[0] & 0xFE) | 0x02;

    MacAddress::new(bytes)
}

/// Checks that `mac` reads `xx:xx:xx:xx:xx:xx`: six colon-separated parts,
/// each two bytes forming a hexadecimal byte (an optional `+` counts as a
/// byte of the part). The first part that fails decides the error.
pub fn validate_mac_address(mac: &str) -> (r: NetResult<()>)
    ensures
        match mac_text_verdict(mac.spec_bytes()) {
            MacTextVerdict::Valid => r is Ok,
            MacTextVerdict::WrongPartCount => r matches Err(NetError::InvalidAddress(m)) && m@
                == "MAC address must have 6 parts"@,
            MacTextVerdict::WrongPartLength => r matches Err(NetError::InvalidAddress(m)) && m@
                == "each MAC address part msut be 2 chars"@,
            MacTextVerdict::BadHex => r matches Err(NetError::InvalidAddress(m)) && m@
                == "Invalid hexadecimal in MAC addr"@,
        },
{
    validate_mac_bytes(mac.as_bytes())
}

/// A random port from 1024 up to 65534.
pub fn generate_random_port() -> (r: u16)
    ensures
        1024 <= r < 65535,
{
    random_u16_in_range(1024, 65535)
}

/// Whether `port` is below 1024.
pub fn is_reserved_port(port: u16) -> (r: bool)
    ensures
        r == (port < 1024),
{
    port < 1024
}

} // verus!
