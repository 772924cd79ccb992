//! A lightweight bidirectional streaming RPC transport.
//!
//! Logical RPCs are carried as streams of packets over a single duplex byte
//! channel.  A packet is split into length-delimited frames on the wire; the
//! receiving side reassembles them, and a per-stream state machine sequences
//! invocation, messages, half-close and termination.

pub mod buffer;
pub mod conn;
pub mod enc;
pub mod frame;
pub mod id;
pub mod packet;
pub mod server;
pub mod split;
pub mod stream;
pub mod transport;
pub mod varint;
pub mod wire;
