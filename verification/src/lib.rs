//! A small TCP/IP stack: packet buffers, Ethernet, IPv4/IPv6 and TCP
//! headers, the TCP connection state machine, sockets and interfaces.

pub mod addr;
pub mod buffer;
pub mod error;
pub mod ethernet;
pub mod interface;
pub mod ip;
pub mod packet;
pub mod random;
pub mod socket;
pub mod stack;
pub mod tcp;
pub mod time;
pub mod utils;
pub mod wire;

pub use error::{NetError, NetResult};
pub use interface::NetworkInterface;
pub use socket::{TcpSocket, UdpSocket};
