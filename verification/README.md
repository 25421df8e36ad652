# tcpstack

A small TCP/IP stack written in Verus: packet buffers and builders, the
Internet checksum, Ethernet, IPv4/IPv6 and TCP headers, the TCP connection
state machine and its connection table, TCP and UDP sockets, network
interfaces and their table, and address helpers.

- `src/` is the verified library. Each public function states in its
  contract what it returns or changes, except where the answer comes from
  the clock (`TcpConnection::is_expired`, `current_timestamp_ms`); there the
  clock is read in one place and a verified function does the rest. The laws of the library (header
  round trips, the checksum law, number encodings, netmask conversions,
  the interface table) are public proof functions.
- `tests/` exercises the library on concrete values.
- `app/` is the command-line program around it: argument parsing, the
  async runtime, logging, `std::net` address parsing and printing.

Byte buffers come from the `bytes` crate and random numbers from `rand`;
both are reached through small trusted wrappers in `src/buffer.rs` and
`src/random.rs` whose contracts say what the crates' sources show. The
clocks of `std::time` are reached the same way, in `src/time.rs`.
