//! Packets, the logical unit of the protocol, and their kinds.

use vstd::prelude::*;
use crate::id::ID;

verus! {

/// What a packet means to the stream state machine.  The codes 1, 2, 3, 5, 6
/// and 7 are assigned; every other code is carried through unchanged as
/// `Other`.
#[derive(Debug, PartialEq, Eq, Structural, Clone, Copy)]
pub enum Kind {
    /// Opens a stream; the payload names the RPC method.
    Invoke,
    /// Application payload.
    Message,
    /// Terminates the stream with an error code and message.
    Error,
    /// The sender terminates the stream in both directions.
    Close,
    /// The sender will send no further messages; receiving may continue.
    CloseSend,
    /// Reserved; treated as unknown by the stream state machine.
    InvokeMetadata,
    /// Any unassigned code.
    Other(u8),
}

/// The wire code of a kind.
pub open spec fn code_of(k: Kind) -> u8 {
    match k {
        Kind::Invoke => 1,
        Kind::Message => 2,
        Kind::Error => 3,
        Kind::Close => 5,
        Kind::CloseSend => 6,
        Kind::InvokeMetadata => 7,
        Kind::Other(x) => x,
    }
}

/// The kind a wire code denotes.
pub open spec fn kind_of(x: u8) -> Kind {
    if x == 1 {
        Kind::Invoke
    } else if x == 2 {
        Kind::Message
    } else if x == 3 {
        Kind::Error
    } else if x == 5 {
        Kind::Close
    } else if x == 6 {
        Kind::CloseSend
    } else if x == 7 {
        Kind::InvokeMetadata
    } else {
        Kind::Other(x)
    }
}

/// Law: encoding a kind read off the wire reproduces the wire code.
pub proof fn lemma_kind_roundtrip(x: u8)
    ensures
        code_of(kind_of(x)) == x,
{
}

impl Kind {
    /// The wire code of this kind.
    pub fn code(&self) -> (r: u8)
        ensures
            r == code_of(*self),
    {
        match *self {
            Kind::Invoke => 1,
            Kind::Message => 2,
            Kind::Error => 3,
            Kind::Close => 5,
            Kind::CloseSend => 6,
            Kind::InvokeMetadata => 7,
            Kind::Other(x) => x,
        }
    }

    /// The kind that a wire code denotes.
    pub fn from_code(x: u8) -> (r: Kind)
        ensures
            r == kind_of(x),
    {
        match x {
            1 => Kind::Invoke,
            2 => Kind::Message,
            3 => Kind::Error,
            5 => Kind::Close,
            6 => Kind::CloseSend,
            7 => Kind::InvokeMetadata,
            _ => Kind::Other(x),
        }
    }
}

/// A whole logical message: one or more consecutive frames with the same
/// identifier and kind, reassembled.
#[derive(Debug, PartialEq, Eq, Clone)]
pub struct Packet {
    pub data: Vec<u8>,
    pub id: ID,
    pub kind: Kind,
}

} // verus!
