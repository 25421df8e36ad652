use vstd::prelude::*;
use vstd::string::StringExecFns;

verus! {

/// Lets `std::io::Error` stand in the `Io` variant; nothing inside it is read.
#[verifier::external_type_specification]
#[verifier::external_body]
pub struct ExIoError(std::io::Error);

/// Result type of every fallible operation of the stack.
pub type NetResult<T> = Result<T, NetError>;

/// Errors of the stack.
#[derive(Debug)]
pub enum NetError {
    Io(std::io::Error),
    Interface { message: String },
    Protocol { protocol: String, message: String },
    PacketParse(String),
    Socket(String),
    ChecksumMismatch,
    Timeout,
    ConnectionRefused,
    InvalidAddress(String),
    BufferOverflow,
    Configuration(String),
}

/// `<std::io::Error as ToString>::to_string`: the operating system's text for
/// the error, which depends on the system, so nothing is stated of it.
#[verifier::external_body]
fn io_error_text(e: &std::io::Error) -> (r: String) {
    e.to_string()
}

/// The text of an error other than `Io`, as it is reported to people.
pub open spec fn error_text(e: NetError) -> Seq<char> {
    match e {
        NetError::Io(_) => "IO error: "@,
        NetError::Interface { message } => "Network interface error: "@ + message@,
        NetError::Protocol { protocol, message } => "Protocol error: "@ + protocol@ + " - "@
            + message@,
        NetError::PacketParse(m) => "Packet parsing error: "@ + m@,
        NetError::Socket(m) => "Socket error: "@ + m@,
        NetError::ChecksumMismatch => "Checksum validation failed"@,
        NetError::Timeout => "Connection timeout"@,
        NetError::ConnectionRefused => "Connection refused"@,
        NetError::InvalidAddress(m) => "Invalid address: "@ + m@,
        NetError::BufferOverflow => "Buffer overflow"@,
        NetError::Configuration(m) => "Configuration error: "@ + m@,
    }
}

impl NetError {
    /// The error as text for people: `error_text`, and for `Io` the prefix
    /// `"IO error: "` followed by the operating system's text.
    pub fn to_display_string(&self) -> (r: String)
        ensures
            !(self is Io) ==> r@ == error_text(*self),
            self is Io ==> r@.len() >= error_text(*self).len() && r@.subrange(
                0,
                error_text(*self).len() as int,
            ) == error_text(*self),
    {
        match self {
            NetError::Io(e) => {
                let mut r = String::from_str("IO error: ");
                let t = io_error_text(e);
                let ghost p = r@;
                r.append(t.as_str());
                assert(r@.subrange(0, p.len() as int) =~= p);
                r
            },
            NetError::Interface { message } => {
                let mut r = String::from_str("Network interface error: ");
                r.append(message.as_str());
                r
            },
            NetError::Protocol { protocol, message } => {
                let mut r = String::from_str("Protocol error: ");
                r.append(protocol.as_str());
                r.append(" - ");
                r.append(message.as_str());
                r
            },
            NetError::PacketParse(m) => {
                let mut r = String::from_str("Packet parsing error: ");
                r.append(m.as_str());
                r
            },
            NetError::Socket(m) => {
                let mut r = String::from_str("Socket error: ");
                r.append(m.as_str());
                r
            },
            NetError::ChecksumMismatch => String::from_str("Checksum validation failed"),
            NetError::Timeout => String::from_str("Connection timeout"),
            NetError::ConnectionRefused => String::from_str("Connection refused"),
            NetError::InvalidAddress(m) => {
                let mut r = String::from_str("Invalid address: ");
                r.append(m.as_str());
                r
            },
            NetError::BufferOverflow => String::from_str("Buffer overflow"),
            NetError::Configuration(m) => {
                let mut r = String::from_str("Configuration error: ");
                r.append(m.as_str());
                r
            },
        }
    }

    /// An interface error carrying `msg`.
    pub fn interface(msg: &str) -> (r: NetError)
        ensures
            r matches NetError::Interface { message } && message@ == msg@,
    {
        NetError::Interface { message: msg.to_string() }
    }

    /// A protocol error of protocol `proto` carrying `msg`.
    pub fn protocol(proto: &str, msg: &str) -> (r: NetError)
        ensures
            r matches NetError::Protocol { protocol, message } && protocol@ == proto@
                && message@ == msg@,
    {
        NetError::Protocol { protocol: proto.to_string(), message: msg.to_string() }
    }

    /// A packet parsing error carrying `msg`.
    pub fn packet_parse(msg: &str) -> (r: NetError)
        ensures
            r matches NetError::PacketParse(m) && m@ == msg@,
    {
        NetError::PacketParse(msg.to_string())
    }

    /// A socket error carrying `msg`.
    pub fn socket(msg: &str) -> (r: NetError)
        ensures
            r matches NetError::Socket(m) && m@ == msg@,
    {
        NetError::Socket(msg.to_string())
    }
}

} // verus!
