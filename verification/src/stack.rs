//! Configuration and counters of a network stack.
use crate::time::{duration_from_millis, duration_from_secs, duration_nanos};
use std::time::Duration;
use vstd::prelude::*;

verus! {

/// How a network stack is set up.
#[derive(Debug)]
pub struct StackConfig {
    pub enable_ipv4: bool,
    pub enable_ipv6: bool,
    pub enable_icmp: bool,
    pub tcp_connection_timeout: Duration,
    pub tcp_retransmit_timeout: Duration,
    pub tcp_max_retransmits: u32,
    pub arp_timeout: Duration,
    pub packet_buffer_size: usize,
    pub worker_threads: usize,
}

impl Clone for StackConfig {
    /// A field-by-field copy.
    fn clone(&self) -> (r: Self)
        ensures
            r == *self,
    {
        StackConfig {
            enable_ipv4: self.enable_ipv4,
            enable_ipv6: self.enable_ipv6,
            enable_icmp: self.enable_icmp,
            tcp_connection_timeout: self.tcp_connection_timeout,
            tcp_retransmit_timeout: self.tcp_retransmit_timeout,
            tcp_max_retransmits: self.tcp_max_retransmits,
            arp_timeout: self.arp_timeout,
            packet_buffer_size: self.packet_buffer_size,
            worker_threads: self.worker_threads,
        }
    }
}

impl Default for StackConfig {
    /// All protocols on, a five-minute connection and ARP timeout, a 200 ms
    /// retransmit timeout with three retransmits, a buffer of 1000 packets
    /// and four workers.
    fn default() -> (r: Self)
        ensures
            r.enable_ipv4,
            r.enable_ipv6,
            r.enable_icmp,
            duration_nanos(r.tcp_connection_timeout) == 300 * 1_000_000_000,
            duration_nanos(r.tcp_retransmit_timeout) == 200 * 1_000_000,
            r.tcp_max_retransmits == 3,
            duration_nanos(r.arp_timeout) == 300 * 1_000_000_000,
            r.packet_buffer_size == 1000,
            r.worker_threads == 4,
    {
        StackConfig {
            enable_ipv4: true,
            enable_ipv6: true,
            enable_icmp: true,
            tcp_connection_timeout: duration_from_secs(300),
            tcp_retransmit_timeout: duration_from_millis(200),
            tcp_max_retransmits: 3,
            arp_timeout: duration_from_secs(300),
            packet_buffer_size: 1000,
            worker_threads: 4,
        }
    }
}

/// Counters of what a network stack has done.
#[derive(Debug, Clone, Copy, PartialEq, Eq, Structural)]
pub struct StackStats {
    pub packets_processed: u64,
    pub packets_dropped: u64,
    pub packets_forwarded: u64,
    pub tcp_connections_active: u64,
    pub tcp_connections_total: u64,
    pub udp_datagrams_sent: u64,
    pub udp_datagrams_received: u64,
    pub arp_requests_sent: u64,
    pub arp_requests_received: u64,
    pub icmp_messages_sent: u64,
    pub icmp_messages_received: u64,
    pub errors_total: u64,
}

impl StackStats {
    /// The counters of a stack that has done nothing yet.
    pub open spec fn zeroed() -> StackStats {
        StackStats {
            packets_processed: 0,
            packets_dropped: 0,
            packets_forwarded: 0,
            tcp_connections_active: 0,
            tcp_connections_total: 0,
            udp_datagrams_sent: 0,
            udp_datagrams_received: 0,
            arp_requests_sent: 0,
            arp_requests_received: 0,
            icmp_messages_sent: 0,
            icmp_messages_received: 0,
            errors_total: 0,
        }
    }
}

impl Default for StackStats {
    /// Every counter at zero.
    fn default() -> (r: Self)
        ensures
            r == StackStats::zeroed(),
    {
        StackStats {
            packets_processed: 0,
            packets_dropped: 0,
            packets_forwarded: 0,
            tcp_connections_active: 0,
            tcp_connections_total: 0,
            udp_datagrams_sent: 0,
            udp_datagrams_received: 0,
            arp_requests_sent: 0,
            arp_requests_received: 0,
            icmp_messages_sent: 0,
            icmp_messages_received: 0,
            errors_total: 0,
        }
    }
}

} // verus!
