use std::sync::Arc;
use std::time::Duration;
use tcpstack::addr::{IpAddress, Ipv4Address, Ipv6Address, SocketAddress};
use tcpstack::socket::{SocketState, SocketType};
use tcpstack::tcp::TcpConnectionManager;
use tcpstack::{NetError, TcpSocket, UdpSocket};

fn v4(last: u8, port: u16) -> SocketAddress {
    SocketAddress::new(IpAddress::V4(Ipv4Address::new(127, 0, 0, last)), port)
}

fn socket_message(r: Result<impl Sized, NetError>) -> String {
    match r {
        Err(NetError::Socket(m)) => m,
        Err(_) => panic!("expected a socket error"),
        Ok(_) => panic!("expected an error"),
    }
}

fn tcp() -> TcpSocket {
    TcpSocket::new(Arc::new(TcpConnectionManager::new()))
}

#[test]
fn tcp_socket_bind_listen_accept() {
    let mut s = tcp();
    assert_eq!(s.get_state(), SocketState::Closed);
    assert!(s.local_addr().is_none());
    assert_eq!(
        socket_message(s.listen(10)),
        "\n              socket must be bound before listening\n            "
    );
    s.bind(v4(1, 8080)).unwrap();
    assert_eq!(s.get_state(), SocketState::Bound);
    assert_eq!(s.local_addr(), Some(v4(1, 8080)));
    assert_eq!(
        socket_message(s.bind(v4(1, 8081))),
        "\n              socket is already bound or connected\n            "
    );
    assert_eq!(
        socket_message(s.accept()),
        "\n              socket is not listening\n            "
    );
    s.listen(10).unwrap();
    assert_eq!(s.get_state(), SocketState::Listening);
    assert_eq!(socket_message(s.accept()), "Accept not yet implemented");
}

#[test]
fn tcp_socket_connect_binds_unspecified_address() {
    let mut s = tcp();
    s.connect(v4(9, 80)).unwrap();
    assert_eq!(s.get_state(), SocketState::Connected);
    assert_eq!(s.remote_addr(), Some(v4(9, 80)));
    assert_eq!(s.local_addr(), Some(SocketAddress::new(IpAddress::V4(Ipv4Address(0)), 0)));
    assert_eq!(
        socket_message(s.connect(v4(9, 81))),
        "\n              socket is already connected or connecting\n            "
    );

    let mut s6 = tcp();
    let peer = SocketAddress::new(IpAddress::V6(Ipv6Address(1)), 443);
    s6.connect(peer).unwrap();
    assert_eq!(s6.local_addr(), Some(SocketAddress::new(IpAddress::V6(Ipv6Address(0)), 0)));

    let mut bound = tcp();
    bound.bind(v4(1, 4000)).unwrap();
    bound.connect(v4(2, 80)).unwrap();
    assert_eq!(bound.local_addr(), Some(v4(1, 4000)));
}

#[test]
fn tcp_socket_send_and_receive() {
    let mut s = tcp();
    assert_eq!(
        socket_message(s.send(b"x")),
        "\n              socketis not connected\n            "
    );
    let mut buf = [0_u8; 8];
    assert_eq!(
        socket_message(s.receive(&mut buf)),
        "\n              socket is not connected\n            "
    );
    s.connect(v4(9, 80)).unwrap();
    assert_eq!(s.send(b"hello").unwrap(), 5);
    assert_eq!(s.receive(&mut buf).unwrap(), 0);
    s.set_send_buffer_size(3);
    assert_eq!(
        socket_message(s.send(b"hello")),
        "\n              data is too large for send buffer\n            "
    );
    assert_eq!(s.send(b"abc").unwrap(), 3);
    s.set_receive_buffer_size(1);
    s.set_connect_timeout(Duration::from_secs(1));
}

#[test]
fn tcp_socket_close_leaves_open_socket_as_is() {
    let mut s = tcp();
    s.connect(v4(9, 80)).unwrap();
    s.close().unwrap();
    // only a closed socket goes through the closing steps
    assert_eq!(s.get_state(), SocketState::Connected);
    let mut closed = tcp();
    closed.close().unwrap();
    assert_eq!(closed.get_state(), SocketState::Closed);
}

#[test]
fn udp_socket_lifecycle() {
    let mut s = UdpSocket::new();
    assert_eq!(s.get_state(), SocketState::Closed);
    assert_eq!(socket_message(s.send_to(b"x", v4(2, 53))), "socket is not bound");
    let mut buf = [0_u8; 4];
    assert_eq!(socket_message(s.receive_from(&mut buf)), "socket is not bound");
    s.bind(v4(1, 5353)).unwrap();
    assert_eq!(s.local_addr(), Some(v4(1, 5353)));
    assert_eq!(socket_message(s.bind(v4(1, 5354))), "socket is already bound");
    assert_eq!(s.send_to(b"query", v4(2, 53)).unwrap(), 5);
    assert_eq!(socket_message(s.receive_from(&mut buf)), "no data available");
    s.set_send_buffer_size(2);
    assert_eq!(socket_message(s.send_to(b"query", v4(2, 53))), "data too large for send buffer");
    s.set_receive_buffer_size(2);
    s.close().unwrap();
    assert_eq!(s.get_state(), SocketState::Closed);
    let d = UdpSocket::default();
    assert!(d.local_addr().is_none());
    assert_ne!(SocketType::Tcp, SocketType::Udp);
}
