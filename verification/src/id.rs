//! Packet identifiers: a stream number and a message number, ordered
//! lexicographically.

use vstd::prelude::*;

verus! {

/// Identifies a packet: the stream it belongs to and its place within the
/// stream.
#[derive(Debug, PartialEq, Eq, Structural, Clone, Copy)]
pub struct ID {
    pub stream: u64,
    pub message: u64,
}

/// Lexicographic order on identifiers: stream first, then message.
pub open spec fn id_lt(a: ID, b: ID) -> bool {
    a.stream < b.stream || (a.stream == b.stream && a.message < b.message)
}

impl ID {
    /// Builds an identifier from its two components.
    pub fn new(stream: u64, message: u64) -> (r: Self)
        ensures
            r == (ID { stream, message }),
    {
        ID { stream, message }
    }

    /// Decides the lexicographic order used for monotonicity checks.
    pub fn lt(&self, other: &ID) -> (r: bool)
        ensures
            r == id_lt(*self, *other),
    {
        self.stream < other.stream || (self.stream == other.stream && self.message
            < other.message)
    }
}

} // verus!
