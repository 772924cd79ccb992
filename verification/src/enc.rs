//! The encoding boundary: how application values become payload bytes and
//! back.  The identity encoding on byte vectors is provided; users bring
//! their own for richer types.

use vstd::prelude::*;

verus! {

/// An encoding or decoding failure.  What detail the codec could give is
/// the user's affair; the stream only passes the failure through.
#[derive(Debug, PartialEq, Eq, Structural, Clone, Copy)]
pub struct Error;

/// A value that can be encoded into payload bytes.
pub trait Marshal: Sized {
    /// The bytes this value encodes to, where encoding succeeds.
    spec fn enc(&self) -> Seq<u8>;

    /// Whether encoding this value succeeds.
    spec fn enc_ok(&self) -> bool;

    /// Replaces the contents of `buf` with the encoding of `self`.
    fn marshal(&self, buf: &mut Vec<u8>) -> (r: Result<(), Error>)
        ensures
            r is Ok <==> self.enc_ok(),
            r is Ok ==> final(buf)@ == self.enc(),
    ;
}

/// A value that can be decoded from payload bytes.
pub trait Unmarshal: Sized {
    /// Whether `bytes` decode at all.
    spec fn dec_ok(bytes: Seq<u8>) -> bool;

    /// Whether `bytes` decode to `v`.
    spec fn decodes(bytes: Seq<u8>, v: Self) -> bool;

    /// Replaces `self` with the value the bytes of `buf` decode to.
    fn unmarshal(&mut self, buf: &[u8]) -> (r: Result<(), Error>)
        ensures
            r is Ok <==> Self::dec_ok(buf@),
            r is Ok ==> Self::decodes(buf@, *final(self)),
    ;
}

impl Marshal for Vec<u8> {
    open spec fn enc(&self) -> Seq<u8> {
        self@
    }

    open spec fn enc_ok(&self) -> bool {
        true
    }

    fn marshal(&self, buf: &mut Vec<u8>) -> (r: Result<(), Error>)
        ensures
            r is Ok <==> self.enc_ok(),
            r is Ok ==> final(buf)@ == self.enc(),
    {
        buf.clear();
        buf.extend_from_slice(self.as_slice());
        proof {
            assert(buf@ =~= self@);
        }
        Ok(())
    }
}

impl Unmarshal for Vec<u8> {
    open spec fn dec_ok(bytes: Seq<u8>) -> bool {
        true
    }

    open spec fn decodes(bytes: Seq<u8>, v: Self) -> bool {
        v@ == bytes
    }

    fn unmarshal(&mut self, buf: &[u8]) -> (r: Result<(), Error>)
        ensures
            r is Ok <==> Self::dec_ok(buf@),
            r is Ok ==> Self::decodes(buf@, *final(self)),
    {
        self.clear();
        self.extend_from_slice(buf);
        proof {
            assert(self@ =~= buf@);
        }
        Ok(())
    }
}

} // verus!
