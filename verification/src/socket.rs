//! TCP and UDP sockets: their states and the checks around sending and
//! receiving.
use std::collections::VecDeque;
use std::sync::Arc;
use std::time::Duration;
use vstd::prelude::*;

use crate::addr::{IpAddress, Ipv4Address, Ipv6Address, SocketAddress};
use crate::error::{NetError, NetResult};
use crate::tcp::{ConnectionKey, TcpConnection, TcpConnectionManager, TcpConnectionModel, TcpState};
use crate::time::{duration_from_secs, duration_nanos};

verus! {

/// Socket types.
#[derive(Debug, Clone, Copy, PartialEq, Eq, Structural)]
pub enum SocketType {
    Tcp,
    Udp,
}

/// Socket states.
#[derive(Debug, Clone, Copy, PartialEq, Eq, Structural)]
pub enum SocketState {
    Closed,
    Bound,
    Listening,
    Connected,
    Connecting,
    Disconnecting,
}

/// Copies the first `n` bytes of `data` into `buffer`.
fn copy_prefix(buffer: &mut [u8], data: &[u8], n: usize)
    requires
        n <= old(buffer)@.len(),
        n <= data@.len(),
    ensures
        final(buffer)@ == data@.take(n as int) + old(buffer)@.skip(n as int),
{
    let mut i: usize = 0;
    while i < n
        invariant
            n <= buffer@.len(),
            n <= data@.len(),
            buffer@.len() == old(buffer)@.len(),
            i <= n,
            buffer@ == data@.take(i as int) + old(buffer)@.skip(i as int),
        decreases n - i,
    {
        buffer[i] = data[i];
        i = i + 1;
        assert(buffer@ =~= data@.take(i as int) + old(buffer)@.skip(i as int));
    }
}

/// What receiving into a buffer of `buffer_len` bytes takes from the queue
/// `queue`: the number of bytes, and the queue afterwards (a partly read
/// first element keeps its unread rest at the front).
pub open spec fn take_from_queue(queue: Seq<Seq<u8>>, buffer_len: nat) -> (nat, Seq<Seq<u8>>) {
    let data = queue[0];
    let n = if buffer_len < data.len() {
        buffer_len
    } else {
        data.len()
    };
    if n < data.len() {
        (n, seq![data.skip(n as int)] + queue.skip(1))
    } else {
        (n, queue.skip(1))
    }
}

/// A TCP socket.
pub struct TcpSocket {
    local_addr: Option<SocketAddress>,
    remote_addr: Option<SocketAddress>,
    state: SocketState,
    connection_manager: Arc<TcpConnectionManager>,
    incoming_data: VecDeque<Vec<u8>>,
    receive_buffer_size: usize,
    send_buffer_size: usize,
    connect_timeout: Duration,
}

/// A TCP socket as plain values.
#[verifier::ext_equal]
pub struct TcpSocketModel {
    pub local_addr: Option<SocketAddress>,
    pub remote_addr: Option<SocketAddress>,
    pub state: SocketState,
    pub incoming_data: Seq<Seq<u8>>,
    pub receive_buffer_size: usize,
    pub send_buffer_size: usize,
    pub connect_timeout_nanos: nat,
}

impl View for TcpSocket {
    type V = TcpSocketModel;

    closed spec fn view(&self) -> TcpSocketModel {
        TcpSocketModel {
            local_addr: self.local_addr,
            remote_addr: self.remote_addr,
            state: self.state,
            incoming_data: self.incoming_data@.map_values(|v: Vec<u8>| v@),
            receive_buffer_size: self.receive_buffer_size,
            send_buffer_size: self.send_buffer_size,
            connect_timeout_nanos: duration_nanos(self.connect_timeout),
        }
    }
}

/// The address a socket binds to when it connects unbound: the unspecified
/// address of the peer's family, port 0.
pub open spec fn unspecified_for(peer: SocketAddress) -> SocketAddress {
    SocketAddress {
        ip: match peer.ip {
            IpAddress::V4(_) => IpAddress::V4(Ipv4Address(0)),
            IpAddress::V6(_) => IpAddress::V6(Ipv6Address(0)),
        },
        port: 0,
    }
}

impl TcpSocket {
    /// A connected socket has both its addresses.
    #[verifier::type_invariant]
    spec fn connected_has_addresses(self) -> bool {
        self.state == SocketState::Connected ==> self.local_addr is Some && self.remote_addr is Some
    }

    /// The connections of the table this socket consults.
    pub closed spec fn connections(self) -> Map<ConnectionKey, TcpConnectionModel> {
        self.connection_manager@
    }

    /// A closed, unbound socket with 64 KiB buffers and a 30 second connect
    /// timeout.
    pub fn new(connection_manager: Arc<TcpConnectionManager>) -> (r: Self)
        ensures
            r@ == (TcpSocketModel {
                local_addr: None,
                remote_addr: None,
                state: SocketState::Closed,
                incoming_data: Seq::empty(),
                receive_buffer_size: 65536,
                send_buffer_size: 65536,
                connect_timeout_nanos: 30_000_000_000,
            }),
            r.connections() == connection_manager@,
    {
        let r = Self {
            local_addr: None,
            remote_addr: None,
            state: SocketState::Closed,
            connection_manager,
            incoming_data: VecDeque::new(),
            receive_buffer_size: 65536,
            send_buffer_size: 65536,
            connect_timeout: duration_from_secs(30),
        };
        assert(r@ =~= (TcpSocketModel {
            local_addr: None,
            remote_addr: None,
            state: SocketState::Closed,
            incoming_data: Seq::empty(),
            receive_buffer_size: 65536,
            send_buffer_size: 65536,
            connect_timeout_nanos: 30_000_000_000,
        }));
        r
    }

    /// Binds a closed socket to `addr`.
    pub fn bind(&mut self, addr: SocketAddress) -> (r: NetResult<()>)
        ensures
            final(self).connections() == old(self).connections(),
            old(self)@.state != SocketState::Closed ==> (r matches Err(NetError::Socket(m)) && m@
                == "\n              socket is already bound or connected\n            "@
                && final(self)@ == old(self)@),
            old(self)@.state == SocketState::Closed ==> (r is Ok && final(self)@ == (TcpSocketModel {
                local_addr: Some(addr),
                state: SocketState::Bound,
                ..old(self)@
            })),
    {
        if self.state != SocketState::Closed {
            return Err(
                NetError::socket("\n              socket is already bound or connected\n            "),
            );
        }
        self.local_addr = Some(addr);
        self.state = SocketState::Bound;
        assert(self@ =~= (TcpSocketModel {
            local_addr: Some(addr),
            state: SocketState::Bound,
            ..old(self)@
        }));
        Ok(())
    }

    /// Moves a bound socket to listening; the backlog is not used.
    pub fn listen(&mut self, _backlog: u32) -> (r: NetResult<()>)
        ensures
            final(self).connections() == old(self).connections(),
            old(self)@.state != SocketState::Bound ==> (r matches Err(NetError::Socket(m)) && m@
                == "\n              socket must be bound before listening\n            "@
                && final(self)@ == old(self)@),
            old(self)@.state == SocketState::Bound ==> (r is Ok && final(self)@ == (TcpSocketModel {
                state: SocketState::Listening,
                ..old(self)@
            })),
    {
        if self.state != SocketState::Bound {
            return Err(
                NetError::socket("\n              socket must be bound before listening\n            "),
            );
        }
        self.state = SocketState::Listening;
        assert(self@ =~= (TcpSocketModel { state: SocketState::Listening, ..old(self)@ }));
        Ok(())
    }

    /// Accepting is not supported: a listening socket answers that it is
    /// not implemented, any other that it is not listening.
    pub fn accept(&self) -> (r: NetResult<(TcpSocket, SocketAddress)>)
        ensures
            self@.state != SocketState::Listening ==> (r matches Err(NetError::Socket(m)) && m@
                == "\n              socket is not listening\n            "@),
            self@.state == SocketState::Listening ==> (r matches Err(NetError::Socket(m)) && m@
                == "Accept not yet implemented"@),
    {
        if self.state != SocketState::Listening {
            return Err(NetError::socket("\n              socket is not listening\n            "));
        }
        Err(NetError::socket("Accept not yet implemented"))
    }

    /// Connects a closed or bound socket to `addr`: an unbound socket first
    /// binds to the unspecified address of `addr`'s family with port 0; the
    /// handshake is started on a fresh connection and the socket counts as
    /// connected.
    pub fn connect(&mut self, addr: SocketAddress) -> (r: NetResult<()>)
        ensures
            final(self).connections() == old(self).connections(),
            !(old(self)@.state == SocketState::Closed || old(self)@.state == SocketState::Bound)
                ==> (r matches Err(NetError::Socket(m)) && m@
                == "\n              socket is already connected or connecting\n            "@
                && final(self)@ == old(self)@),
            old(self)@.state == SocketState::Closed || old(self)@.state == SocketState::Bound ==> (r is Ok
                && final(self)@ == (TcpSocketModel {
                state: SocketState::Connected,
                remote_addr: Some(addr),
                local_addr: Some(
                    match old(self)@.local_addr {
                        Some(a) => a,
                        None => unspecified_for(addr),
                    },
                ),
                ..old(self)@
            })),
    {
        if self.state != SocketState::Closed && self.state != SocketState::Bound {
            return Err(
                NetError::socket(
                    "\n              socket is already connected or connecting\n            ",
                ),
            );
        }

        self.state = SocketState::Connecting;

        self.remote_addr = Some(addr);

        if self.local_addr.is_none() {
            // bind to the unspecified address of the peer's family, any port
            let local_ip = match addr.ip() {
                IpAddress::V4(_) => IpAddress::V4(Ipv4Address(0)),
                IpAddress::V6(_) => IpAddress::V6(Ipv6Address(0)),
            };
            self.local_addr = Some(SocketAddress::new(local_ip, 0));
        }

        let local_addr = self.local_addr.unwrap();
        let mut connection = TcpConnection::new(local_addr, addr);

        // initiate the handshake
        let _syn = connection.initiate_connection()?;

        // the connection counts as established
        self.state = SocketState::Connected;
        assert(self@ =~= (TcpSocketModel {
            state: SocketState::Connected,
            remote_addr: Some(addr),
            local_addr: Some(
                match old(self)@.local_addr {
                    Some(a) => a,
                    None => unspecified_for(addr),
                },
            ),
            ..old(self)@
        }));
        Ok(())
    }

    /// Accepts `data` for sending on a connected socket and reports its
    /// length as sent; data larger than the send buffer is refused.
    pub fn send(&mut self, data: &[u8]) -> (r: NetResult<usize>)
        ensures
            final(self)@ == old(self)@,
            final(self).connections() == old(self).connections(),
            old(self)@.state != SocketState::Connected ==> (r matches Err(NetError::Socket(m)) && m@
                == "\n              socketis not connected\n            "@),
            old(self)@.state == SocketState::Connected && data@.len()
                > old(self)@.send_buffer_size ==> (r matches Err(NetError::Socket(m)) && m@
                == "\n              data is too large for send buffer\n            "@),
            old(self)@.state == SocketState::Connected && data@.len()
                <= old(self)@.send_buffer_size ==> r == Ok::<usize, NetError>(data@.len() as usize),
    {
        proof {
            use_type_invariant(&*self);
        }
        if self.state != SocketState::Connected {
            return Err(NetError::socket("\n              socketis not connected\n            "));
        }

        if data.len() > self.send_buffer_size {
            return Err(
                NetError::socket("\n              data is too large for send buffer\n            "),
            );
        }

        if self.local_addr.is_none() {
            return Err(NetError::socket("no local address"));
        }
        if self.remote_addr.is_none() {
            return Err(NetError::socket("no remote address"));
        }

        Ok(data.len())
    }

    /// Receives queued data on a connected socket into `buffer`: as much of
    /// the first queued chunk as fits, putting back what does not fit;
    /// 0 when nothing is queued.
    pub fn receive(&mut self, buffer: &mut [u8]) -> (r: NetResult<usize>)
        ensures
            final(self).connections() == old(self).connections(),
            old(self)@.state != SocketState::Connected ==> (r matches Err(NetError::Socket(m)) && m@
                == "\n              socket is not connected\n            "@ && final(self)@
                == old(self)@ && final(buffer)@ == old(buffer)@),
            old(self)@.state == SocketState::Connected && old(self)@.incoming_data.len() == 0 ==> (r
                == Ok::<usize, NetError>(0) && final(self)@ == old(self)@ && final(buffer)@
                == old(buffer)@),
            old(self)@.state == SocketState::Connected && old(self)@.incoming_data.len() > 0 ==> ({
                let (n, rest) = take_from_queue(old(self)@.incoming_data, old(buffer)@.len());
                &&& r == Ok::<usize, NetError>(n as usize)
                &&& final(self)@ == (TcpSocketModel { incoming_data: rest, ..old(self)@ })
                &&& final(buffer)@ == old(self)@.incoming_data[0].take(n as int) + old(buffer)@.skip(n as int)
            }),
    {
        proof {
            use_type_invariant(&*self);
        }
        if self.state != SocketState::Connected {
            return Err(NetError::socket("\n              socket is not connected\n            "));
        }

        let ghost q = self.incoming_data@;
        let mut queue: VecDeque<Vec<u8>> = VecDeque::new();
        std::mem::swap(&mut queue, &mut self.incoming_data);
        match queue.pop_front() {
            Some(data) => {
                let bytes_to_copy = if buffer.len() < data.len() {
                    buffer.len()
                } else {
                    data.len()
                };
                copy_prefix(buffer, data.as_slice(), bytes_to_copy);

                // put back what did not fit
                if bytes_to_copy < data.len() {
                    let d = data.as_slice();
                    let rest = vstd::slice::slice_to_vec(&d[bytes_to_copy..d.len()]);
                    queue.push_front(rest);
                }
                self.incoming_data = queue;
                proof {
                    let (n, rest) = take_from_queue(old(self)@.incoming_data, old(buffer)@.len());
                    assert(old(self)@.incoming_data[0] == q[0]@);
                    assert(self@.incoming_data =~= rest);
                }
                assert(self@ =~= (TcpSocketModel {
                    incoming_data: take_from_queue(old(self)@.incoming_data, old(buffer)@.len()).1,
                    ..old(self)@
                }));
                Ok(bytes_to_copy)
            },
            None => {
                self.incoming_data = queue;
                assert(self@ =~= old(self)@);
                Ok(0)
            },
        }
    }

    /// Closes the socket. A socket that is not closed is left as it is.
    /// For a closed socket with both addresses set, a FIN is started on a
    /// copy of the table's connection between them (if any), which fails
    /// unless that connection is established or waiting to close; then the
    /// socket stays closed.
    pub fn close(&mut self) -> (r: NetResult<()>)
        ensures
            final(self)@ == old(self)@,
            final(self).connections() == old(self).connections(),
            ({
                let s = old(self)@;
                let blocked = s.state == SocketState::Closed && s.local_addr is Some
                    && s.remote_addr is Some && old(self).connections().contains_key(
                    (s.local_addr.unwrap(), s.remote_addr.unwrap()),
                ) && !({
                    let st = old(self).connections()[(
                        s.local_addr.unwrap(),
                        s.remote_addr.unwrap(),
                    )].state;
                    st == TcpState::Established || st == TcpState::CloseWait
                });
                &&& blocked ==> (r matches Err(NetError::Socket(m)) && m@
                    == "invalid state for close"@)
                &&& !blocked ==> r is Ok
            }),
    {
        if self.state != SocketState::Closed {
            return Ok(());
        }

        if let (Some(local_addr), Some(remote_addr)) = (self.local_addr, self.remote_addr) {
            if let Some(mut connection) = self.connection_manager.get_connection(
                local_addr,
                remote_addr,
            ) {
                // send FIN
                let _fin_segment = connection.close_connection()?;
            }
        }

        self.state = SocketState::Closed;
        Ok(())
    }

    /// The socket's state.
    pub fn get_state(&self) -> (r: SocketState)
        ensures
            r == self@.state,
    {
        self.state
    }

    /// The local address, once bound.
    pub fn local_addr(&self) -> (r: Option<SocketAddress>)
        ensures
            r == self@.local_addr,
    {
        self.local_addr
    }

    /// The remote address, once connecting.
    pub fn remote_addr(&self) -> (r: Option<SocketAddress>)
        ensures
            r == self@.remote_addr,
    {
        self.remote_addr
    }

    /// Sets the receive buffer size.
    pub fn set_receive_buffer_size(&mut self, size: usize)
        ensures
            final(self)@ == (TcpSocketModel { receive_buffer_size: size, ..old(self)@ }),
            final(self).connections() == old(self).connections(),
    {
        proof {
            use_type_invariant(&*self);
        }
        self.receive_buffer_size = size;
        assert(self@ =~= (TcpSocketModel { receive_buffer_size: size, ..old(self)@ }));
    }

    /// Sets the send buffer size.
    pub fn set_send_buffer_size(&mut self, size: usize)
        ensures
            final(self)@ == (TcpSocketModel { send_buffer_size: size, ..old(self)@ }),
            final(self).connections() == old(self).connections(),
    {
        proof {
            use_type_invariant(&*self);
        }
        self.send_buffer_size = size;
        assert(self@ =~= (TcpSocketModel { send_buffer_size: size, ..old(self)@ }));
    }

    /// Sets the connect timeout.
    pub fn set_connect_timeout(&mut self, timeout: Duration)
        ensures
            final(self)@ == (TcpSocketModel {
                connect_timeout_nanos: duration_nanos(timeout),
                ..old(self)@
            }),
            final(self).connections() == old(self).connections(),
    {
        proof {
            use_type_invariant(&*self);
        }
        self.connect_timeout = timeout;
        assert(self@ =~= (TcpSocketModel {
            connect_timeout_nanos: duration_nanos(timeout),
            ..old(self)@
        }));
    }
}

/// A UDP socket.
pub struct UdpSocket {
    local_addr: Option<SocketAddress>,
    state: SocketState,
    incoming_datagram: VecDeque<(Vec<u8>, SocketAddress)>,
    receive_buffer_size: usize,
    send_buffer_size: usize,
}

/// A UDP socket as plain values.
#[verifier::ext_equal]
pub struct UdpSocketModel {
    pub local_addr: Option<SocketAddress>,
    pub state: SocketState,
    pub incoming_datagram: Seq<(Seq<u8>, SocketAddress)>,
    pub receive_buffer_size: usize,
    pub send_buffer_size: usize,
}

impl View for UdpSocket {
    type V = UdpSocketModel;

    closed spec fn view(&self) -> UdpSocketModel {
        UdpSocketModel {
            local_addr: self.local_addr,
            state: self.state,
            incoming_datagram: self.incoming_datagram@.map_values(
                |d: (Vec<u8>, SocketAddress)| (d.0@, d.1),
            ),
            receive_buffer_size: self.receive_buffer_size,
            send_buffer_size: self.send_buffer_size,
        }
    }
}

impl UdpSocket {
    /// A closed, unbound socket with 64 KiB buffers.
    pub fn new() -> (r: Self)
        ensures
            r@ == (UdpSocketModel {
                local_addr: None,
                state: SocketState::Closed,
                incoming_datagram: Seq::empty(),
                receive_buffer_size: 65536,
                send_buffer_size: 65536,
            }),
    {
        let r = Self {
            local_addr: None,
            state: SocketState::Closed,
            incoming_datagram: VecDeque::new(),
            receive_buffer_size: 65536,
            send_buffer_size: 65536,
        };
        assert(r@ =~= (UdpSocketModel {
            local_addr: None,
            state: SocketState::Closed,
            incoming_datagram: Seq::empty(),
            receive_buffer_size: 65536,
            send_buffer_size: 65536,
        }));
        r
    }

    /// Binds a closed socket to `addr`.
    pub fn bind(&mut self, addr: SocketAddress) -> (r: NetResult<()>)
        ensures
            old(self)@.state != SocketState::Closed ==> (r matches Err(NetError::Socket(m)) && m@
                == "socket is already bound"@ && final(self)@ == old(self)@),
            old(self)@.state == SocketState::Closed ==> (r is Ok && final(self)@ == (UdpSocketModel {
                local_addr: Some(addr),
                state: SocketState::Bound,
                ..old(self)@
            })),
    {
        if self.state != SocketState::Closed {
            return Err(NetError::socket("socket is already bound"));
        }
        self.local_addr = Some(addr);
        self.state = SocketState::Bound;
        assert(self@ =~= (UdpSocketModel {
            local_addr: Some(addr),
            state: SocketState::Bound,
            ..old(self)@
        }));
        Ok(())
    }

    /// Accepts `data` for sending to `addr` from a bound socket and reports
    /// its length as sent; data larger than the send buffer is refused.
    pub fn send_to(&self, data: &[u8], addr: SocketAddress) -> (r: NetResult<usize>)
        ensures
            self@.state != SocketState::Bound ==> (r matches Err(NetError::Socket(m)) && m@
                == "socket is not bound"@),
            self@.state == SocketState::Bound && data@.len() > self@.send_buffer_size ==> (r matches Err(
                NetError::Socket(m),
            ) && m@ == "data too large for send buffer"@),
            self@.state == SocketState::Bound && data@.len() <= self@.send_buffer_size
                && self@.local_addr is None ==> (r matches Err(NetError::Socket(m)) && m@
                == "no local address"@),
            self@.state == SocketState::Bound && data@.len() <= self@.send_buffer_size
                && self@.local_addr is Some ==> r == Ok::<usize, NetError>(data@.len() as usize),
    {
        if self.state != SocketState::Bound {
            return Err(NetError::socket("socket is not bound"));
        }

        if data.len() > self.send_buffer_size {
            return Err(NetError::socket("data too large for send buffer"));
        }

        if self.local_addr.is_none() {
            return Err(NetError::socket("no local address"));
        }

        Ok(data.len())
    }

    /// Receives the first queued datagram on a bound socket into `buffer`,
    /// as much as fits (the rest is dropped), with its sender.
    pub fn receive_from(&mut self, buffer: &mut [u8]) -> (r: NetResult<(usize, SocketAddress)>)
        ensures
            old(self)@.state != SocketState::Bound ==> (r matches Err(NetError::Socket(m)) && m@
                == "socket is not bound"@ && final(self)@ == old(self)@ && final(buffer)@ == old(buffer)@),
            old(self)@.state == SocketState::Bound && old(self)@.incoming_datagram.len() == 0 ==> (r matches Err(
                NetError::Socket(m),
            ) && m@ == "no data available"@ && final(self)@ == old(self)@ && final(buffer)@
                == old(buffer)@),
            old(self)@.state == SocketState::Bound && old(self)@.incoming_datagram.len() > 0 ==> ({
                let (data, sender) = old(self)@.incoming_datagram[0];
                let n = if old(buffer)@.len() < data.len() {
                    old(buffer)@.len()
                } else {
                    data.len()
                };
                &&& r == Ok::<(usize, SocketAddress), NetError>((n as usize, sender))
                &&& final(self)@ == (UdpSocketModel {
                    incoming_datagram: old(self)@.incoming_datagram.skip(1),
                    ..old(self)@
                })
                &&& final(buffer)@ == data.take(n as int) + old(buffer)@.skip(n as int)
            }),
    {
        if self.state != SocketState::Bound {
            return Err(NetError::socket("socket is not bound"));
        }

        match self.incoming_datagram.pop_front() {
            Some((data, sender_addr)) => {
                let bytes_to_copy = if buffer.len() < data.len() {
                    buffer.len()
                } else {
                    data.len()
                };
                copy_prefix(buffer, data.as_slice(), bytes_to_copy);
                assert(self@ =~= (UdpSocketModel {
                    incoming_datagram: old(self)@.incoming_datagram.skip(1),
                    ..old(self)@
                }));
                Ok((bytes_to_copy, sender_addr))
            },
            None => {
                assert(self@ =~= old(self)@);
                Err(NetError::socket("no data available"))
            },
        }
    }

    /// Closes the socket.
    pub fn close(&mut self) -> (r: NetResult<()>)
        ensures
            r is Ok,
            final(self)@ == (UdpSocketModel { state: SocketState::Closed, ..old(self)@ }),
    {
        self.state = SocketState::Closed;
        assert(self@ =~= (UdpSocketModel { state: SocketState::Closed, ..old(self)@ }));
        Ok(())
    }

    /// The socket's state.
    pub fn get_state(&self) -> (r: SocketState)
        ensures
            r == self@.state,
    {
        self.state
    }

    /// The local address, once bound.
    pub fn local_addr(&self) -> (r: Option<SocketAddress>)
        ensures
            r == self@.local_addr,
    {
        self.local_addr
    }

    /// Sets the receive buffer size.
    pub fn set_receive_buffer_size(&mut self, size: usize)
        ensures
            final(self)@ == (UdpSocketModel { receive_buffer_size: size, ..old(self)@ }),
    {
        self.receive_buffer_size = size;
        assert(self@ =~= (UdpSocketModel { receive_buffer_size: size, ..old(self)@ }));
    }

    /// Sets the send buffer size.
    pub fn set_send_buffer_size(&mut self, size: usize)
        ensures
            final(self)@ == (UdpSocketModel { send_buffer_size: size, ..old(self)@ }),
    {
        self.send_buffer_size = size;
        assert(self@ =~= (UdpSocketModel { send_buffer_size: size, ..old(self)@ }));
    }
}

impl Default for UdpSocket {
    fn default() -> (r: Self)
        ensures
            r@ == (UdpSocketModel {
                local_addr: None,
                state: SocketState::Closed,
                incoming_datagram: Seq::empty(),
                receive_buffer_size: 65536,
                send_buffer_size: 65536,
            }),
    {
        Self::new()
    }
}

} // verus!
