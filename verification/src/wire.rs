//! The duplex byte channel that a transport runs over.  Collaborators hand
//! the library one end of such a channel; the library never opens one
//! itself.

use vstd::prelude::*;

verus! {

/// A fault of the underlying channel.  Whatever detail the channel could
/// give is of no use to the protocol: every fault poisons the transport the
/// same way.
#[derive(Debug, PartialEq, Eq, Structural, Clone, Copy)]
pub struct Fault;

/// One end of a duplex byte channel.
///
/// The spec functions model the channel from this end: `inq` holds the
/// bytes that reading will deliver, in order; `outq` holds the bytes this
/// end has accepted for sending so far; `reliable` says the channel never
/// faults, so operations on it are sure to succeed.  A loopback channel may
/// feed its own `inq` from what is written, so nothing here promises that
/// writing leaves `inq` alone.
pub trait Wire: Sized {
    /// The bytes that reading from this end will deliver, in order.
    /// Unverified channel ends may leave the default model in place; the
    /// library's own contracts then say nothing useful about them, but
    /// everything it proves internally still holds.
    open spec fn inq(&self) -> Seq<u8> {
        Seq::empty()
    }

    /// The bytes this end has accepted for sending so far.
    open spec fn outq(&self) -> Seq<u8> {
        Seq::empty()
    }

    /// Whether this end never faults.  The defaulted answer promises
    /// nothing; an end that overrides it with `true` must make every
    /// operation succeed, and the transport's and streams' success clauses
    /// rest on that.
    open spec fn reliable(&self) -> bool {
        false
    }

    /// Reads up to `max` bytes.  An empty result means the remote side has
    /// closed; a result never invents bytes, it takes them off the front of
    /// `inq`.
    fn read_chunk(&mut self, max: usize) -> (r: Result<Vec<u8>, Fault>)
        ensures
            final(self).outq() == old(self).outq(),
            final(self).reliable() == old(self).reliable(),
            old(self).reliable() ==> r is Ok,
            r matches Ok(b) ==> {
                &&& b@.len() <= max
                &&& b@.len() <= old(self).inq().len()
                &&& b@ == old(self).inq().take(b@.len() as int)
                &&& final(self).inq() == old(self).inq().skip(b@.len() as int)
                &&& (b@.len() == 0 && max > 0 ==> old(self).inq().len() == 0)
            },
    ;

    /// Sends the whole of `data`, blocking as long as it must.
    fn write_all(&mut self, data: &[u8]) -> (r: Result<(), Fault>)
        ensures
            final(self).reliable() == old(self).reliable(),
            old(self).reliable() ==> r is Ok,
            r matches Ok(v) ==> final(self).outq() == old(self).outq() + data@,
    ;

    /// Pushes anything the channel itself still buffers toward the peer.
    fn flush(&mut self) -> (r: Result<(), Fault>)
        ensures
            final(self).outq() == old(self).outq(),
            final(self).reliable() == old(self).reliable(),
            old(self).reliable() ==> r is Ok,
    ;
}

} // verus!
