use std::time::Duration;
use tcpstack::addr::{IpAddress, Ipv4Address, SocketAddress};
use tcpstack::packet::Packet;
use tcpstack::tcp::{TcpConnection, TcpConnectionManager, TcpFlags, TcpHeader, TcpSegment, TcpState};
use tcpstack::NetError;

fn addr(last: u8, port: u16) -> SocketAddress {
    SocketAddress::new(IpAddress::V4(Ipv4Address::new(10, 0, 0, last)), port)
}

fn segment(seq: u32, flags: TcpFlags, payload: &[u8]) -> TcpSegment {
    let mut header = TcpHeader::new(5000, 80);
    header.sequence_number = seq;
    header.flags = flags;
    TcpSegment::new(header, Packet::from_vec(payload.to_vec()))
}

fn connection(state: TcpState, local_seq: u32) -> TcpConnection {
    let mut c = TcpConnection::new(addr(1, 80), addr(2, 5000));
    c.state = state;
    c.local_seq = local_seq;
    c
}

#[test]
fn new_connection_is_closed_and_empty() {
    let c = TcpConnection::new(addr(1, 80), addr(2, 5000));
    assert_eq!(c.state, TcpState::Closed);
    assert_eq!(c.remote_seq, 0);
    assert_eq!(c.local_ack, 0);
    assert_eq!(c.remote_ack, 0);
    assert_eq!(c.window_size, 65535);
    assert!(c.retransmit_queue.is_empty());
    assert!(!c.is_expired(Duration::from_secs(60)));
}

#[test]
fn listen_answers_syn_with_syn_ack() {
    let mut c = connection(TcpState::Listen, 500);
    let responses = c.handle_segment(&segment(1000, TcpFlags::syn(), b"")).unwrap();
    assert_eq!(c.state, TcpState::SynReceived);
    assert_eq!(c.remote_seq, 1000);
    assert_eq!(c.remote_ack, 1001);
    assert_eq!(c.local_seq, 501);
    assert_eq!(responses.len(), 1);
    let h = &responses[0].header;
    assert_eq!(h.source_port, 80);
    assert_eq!(h.destination_port, 5000);
    assert_eq!(h.sequence_number, 500);
    assert_eq!(h.acknowledgment_number, 1001);
    assert!(h.flags.syn && h.flags.ack && !h.flags.fin);
    assert!(responses[0].payload.is_empty());
}

#[test]
fn listen_ignores_segment_without_syn() {
    let mut c = connection(TcpState::Listen, 500);
    let responses = c.handle_segment(&segment(1000, TcpFlags::ack(), b"")).unwrap();
    assert!(responses.is_empty());
    assert_eq!(c.state, TcpState::Listen);
    assert_eq!(c.local_seq, 500);
}

#[test]
fn syn_sent_completes_on_syn_ack() {
    let mut c = connection(TcpState::Closed, 77);
    let syn = c.initiate_connection().unwrap();
    assert!(syn.header.flags.syn && !syn.header.flags.ack);
    assert_eq!(syn.header.sequence_number, 77);
    assert_eq!(syn.header.acknowledgment_number, 0);
    assert_eq!(c.state, TcpState::SynSent);
    assert_eq!(c.local_seq, 78);

    // a bare SYN does nothing in SynSent
    assert!(c.handle_segment(&segment(9, TcpFlags::syn(), b"")).unwrap().is_empty());
    assert_eq!(c.state, TcpState::SynSent);

    let responses = c.handle_segment(&segment(9, TcpFlags::syn_ack(), b"")).unwrap();
    assert_eq!(c.state, TcpState::Established);
    assert_eq!(c.remote_seq, 9);
    assert_eq!(c.remote_ack, 10);
    assert_eq!(responses.len(), 1);
    assert!(responses[0].header.flags.ack && !responses[0].header.flags.syn);
    assert_eq!(responses[0].header.sequence_number, 78);
    assert_eq!(responses[0].header.acknowledgment_number, 10);
}

#[test]
fn initiate_twice_is_refused() {
    let mut c = connection(TcpState::Closed, 1);
    c.initiate_connection().unwrap();
    match c.initiate_connection() {
        Err(NetError::Socket(m)) => assert_eq!(m, "connection already in progress"),
        _ => panic!("expected a socket error"),
    }
    assert_eq!(c.state, TcpState::SynSent);
    assert_eq!(c.local_seq, 2);
}

#[test]
fn initial_sequence_number_wraps() {
    let mut c = connection(TcpState::Closed, u32::MAX);
    c.initiate_connection().unwrap();
    assert_eq!(c.local_seq, 0);
}

#[test]
fn syn_received_becomes_established_on_ack() {
    let mut c = connection(TcpState::SynReceived, 5);
    assert!(c.handle_segment(&segment(3, TcpFlags::syn(), b"")).unwrap().is_empty());
    assert_eq!(c.state, TcpState::SynReceived);
    assert!(c.handle_segment(&segment(3, TcpFlags::ack(), b"")).unwrap().is_empty());
    assert_eq!(c.state, TcpState::Established);
}

#[test]
fn established_acknowledges_data_and_fin() {
    let mut c = connection(TcpState::Established, 300);
    let responses = c.handle_segment(&segment(1000, TcpFlags::ack(), b"hello")).unwrap();
    assert_eq!(c.state, TcpState::Established);
    assert_eq!(c.remote_ack, 1005);
    assert_eq!(responses.len(), 1);
    assert_eq!(responses[0].header.acknowledgment_number, 1005);
    assert_eq!(responses[0].header.sequence_number, 300);

    // an empty segment without FIN is not answered
    assert!(c.handle_segment(&segment(1005, TcpFlags::ack(), b"")).unwrap().is_empty());

    let responses = c.handle_segment(&segment(2000, TcpFlags::fin(), b"")).unwrap();
    assert_eq!(c.state, TcpState::CloseWait);
    assert_eq!(c.remote_ack, 2001);
    assert_eq!(responses.len(), 1);
    assert!(responses[0].header.flags.ack && !responses[0].header.flags.fin);
    assert_eq!(responses[0].header.acknowledgment_number, 2001);
}

#[test]
fn other_states_ignore_segments() {
    for state in [TcpState::Closed, TcpState::FinWait1, TcpState::TimeWait, TcpState::LastAck] {
        let mut c = connection(state, 1);
        assert!(c.handle_segment(&segment(1, TcpFlags::syn(), b"x")).unwrap().is_empty());
        assert_eq!(c.state, state);
    }
}

#[test]
fn close_connection_sends_fin() {
    let mut c = connection(TcpState::Established, 40);
    c.remote_ack = 99;
    let fin = c.close_connection().unwrap();
    assert_eq!(c.state, TcpState::FinWait1);
    assert_eq!(c.local_seq, 41);
    assert!(fin.header.flags.fin && !fin.header.flags.ack);
    assert_eq!(fin.header.sequence_number, 40);
    assert_eq!(fin.header.acknowledgment_number, 99);

    let mut c = connection(TcpState::CloseWait, 7);
    c.close_connection().unwrap();
    assert_eq!(c.state, TcpState::LastAck);

    let mut c = connection(TcpState::Listen, 7);
    match c.close_connection() {
        Err(NetError::Socket(m)) => assert_eq!(m, "invalid state for close"),
        _ => panic!("expected a socket error"),
    }
    assert_eq!(c.state, TcpState::Listen);
    assert_eq!(c.local_seq, 7);
}

#[test]
fn connection_clone_keeps_fields() {
    let mut c = connection(TcpState::Established, 12);
    c.retransmit_queue.push(segment(3, TcpFlags::ack(), b"q"));
    let copy = c.clone();
    assert_eq!(copy.state, TcpState::Established);
    assert_eq!(copy.local_seq, 12);
    assert_eq!(copy.retransmit_queue.len(), 1);
    assert_eq!(copy.retransmit_queue[0].payload.as_slice(), b"q");
}

#[test]
fn manager_stores_replaces_and_removes() {
    let mut m = TcpConnectionManager::new();
    assert!(m.get_connection(addr(1, 80), addr(2, 5000)).is_none());
    m.add_connection(connection(TcpState::Listen, 5));
    assert_eq!(m.get_connection(addr(1, 80), addr(2, 5000)).unwrap().local_seq, 5);
    m.update_connection(addr(1, 80), addr(2, 5000), connection(TcpState::Established, 6));
    let got = m.get_connection(addr(1, 80), addr(2, 5000)).unwrap();
    assert_eq!(got.state, TcpState::Established);
    assert_eq!(got.local_seq, 6);
    // the key is ordered: swapping the addresses finds nothing
    assert!(m.get_connection(addr(2, 5000), addr(1, 80)).is_none());
    m.remove_connection(addr(1, 80), addr(2, 5000));
    assert!(m.get_connection(addr(1, 80), addr(2, 5000)).is_none());
    let mut d = TcpConnectionManager::default();
    d.cleanup_expired_connections();
    assert!(d.get_connection(addr(1, 80), addr(2, 5000)).is_none());
}

#[test]
fn manager_keeps_fresh_connections_on_cleanup() {
    let mut m = TcpConnectionManager::new();
    m.add_connection(connection(TcpState::Established, 5));
    m.cleanup_expired_connections();
    assert!(m.get_connection(addr(1, 80), addr(2, 5000)).is_some());
}

#[test]
fn manager_handles_syn_for_unknown_connection() {
    let mut m = TcpConnectionManager::new();
    let responses = m.handle_segment(segment(100, TcpFlags::syn(), b""), addr(1, 80), addr(2, 5000)).unwrap();
    assert_eq!(responses.len(), 1);
    assert!(responses[0].header.flags.syn && responses[0].header.flags.ack);
    assert_eq!(responses[0].header.acknowledgment_number, 101);
    let c = m.get_connection(addr(1, 80), addr(2, 5000)).unwrap();
    assert_eq!(c.state, TcpState::SynReceived);
    assert_eq!(c.remote_seq, 100);

    let responses = m.handle_segment(segment(101, TcpFlags::ack(), b""), addr(1, 80), addr(2, 5000)).unwrap();
    assert!(responses.is_empty());
    assert_eq!(m.get_connection(addr(1, 80), addr(2, 5000)).unwrap().state, TcpState::Established);
}

#[test]
fn manager_stores_listening_connection_after_non_syn() {
    let mut m = TcpConnectionManager::new();
    let responses = m.handle_segment(segment(1, TcpFlags::ack(), b""), addr(1, 80), addr(3, 1)).unwrap();
    assert!(responses.is_empty());
    assert_eq!(m.get_connection(addr(1, 80), addr(3, 1)).unwrap().state, TcpState::Listen);
}

#[test]
fn manager_drops_connection_that_stays_closed() {
    let mut m = TcpConnectionManager::new();
    m.add_connection(connection(TcpState::Closed, 5));
    let responses = m.handle_segment(segment(1, TcpFlags::syn(), b""), addr(1, 80), addr(2, 5000)).unwrap();
    assert!(responses.is_empty());
    assert!(m.get_connection(addr(1, 80), addr(2, 5000)).is_none());
}

#[test]
fn manager_retains_unflagged_connections() {
    let mut m = TcpConnectionManager::new();
    let mut a = connection(TcpState::Established, 1);
    a.remote_addr = addr(2, 1);
    let mut b = connection(TcpState::Listen, 2);
    b.remote_addr = addr(2, 2);
    let mut c = connection(TcpState::SynSent, 3);
    c.remote_addr = addr(2, 3);
    m.add_connection(a);
    m.add_connection(b);
    m.add_connection(c);
    let keys = m.connection_keys();
    assert_eq!(keys.len(), 3);
    let flags: Vec<bool> = keys.iter().map(|k| k.1 == addr(2, 2)).collect();
    m.retain_flagged(&flags);
    assert!(m.get_connection(addr(1, 80), addr(2, 2)).is_none());
    assert_eq!(m.get_connection(addr(1, 80), addr(2, 1)).unwrap().local_seq, 1);
    assert_eq!(m.get_connection(addr(1, 80), addr(2, 3)).unwrap().state, TcpState::SynSent);
    assert_eq!(m.connection_keys().len(), 2);
    m.retain_flagged(&vec![true, true]);
    assert!(m.connection_keys().is_empty());
}

#[test]
fn refused_transitions_keep_last_activity() {
    let mut c = connection(TcpState::Listen, 9);
    let before = c.last_activity;
    assert!(c.close_connection().is_err());
    assert_eq!(c.last_activity, before);
    let mut d = connection(TcpState::Established, 9);
    let before = d.last_activity;
    assert!(d.initiate_connection().is_err());
    d.close_connection().unwrap();
    assert_eq!(d.last_activity, before);
}
