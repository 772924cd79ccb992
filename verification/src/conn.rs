//! The client-side connection: allocates stream numbers and opens streams
//! over one shared buffered transport.

use vstd::prelude::*;
use crate::enc;
use crate::id::ID;
use crate::stream;
use crate::stream::RecvOut;
use crate::stream::StateV;
use crate::stream::Stream;
use crate::stream::StreamV;
use crate::transport;
use crate::transport::Transport;
use crate::wire::Wire;

verus! {

/// One client connection: the transport it owns and the number of the last
/// stream opened on it.
pub struct Conn<W: Wire> {
    sid: u64,
    tr: Transport<W>,
}

impl<W: Wire> Conn<W> {
    /// The number of the last stream opened; stream numbers start at one.
    pub closed spec fn sid(&self) -> u64 {
        self.sid
    }

    /// The transport this connection owns, as a value for specification.
    pub closed spec fn trv(&self) -> Transport<W> {
        self.tr
    }

    /// Takes ownership of a transport; no stream is open yet.
    pub fn new(tr: Transport<W>) -> (c: Conn<W>)
        ensures
            c.sid() == 0,
            c.trv() == tr,
    {
        Conn { sid: 0, tr }
    }

    /// The number of the last stream opened.
    pub fn last_stream_id(&self) -> (r: u64)
        ensures
            r == self.sid(),
    {
        self.sid
    }

    /// The transport under this connection.
    pub fn transport(&mut self) -> (r: &mut Transport<W>)
        ensures
            *r == old(self).trv(),
            final(self).trv() == *final(r),
            final(self).sid() == old(self).sid(),
    {
        &mut self.tr
    }

    /// Allocates the next stream number and its bookkeeping.
    fn new_stream(&mut self) -> (st: Stream)
        requires
            old(self).sid() < u64::MAX,
        ensures
            final(self).sid() == old(self).sid() + 1,
            final(self).trv() == old(self).trv(),
            st@ == (StreamV {
                id: crate::id::ID { stream: (old(self).sid() + 1) as u64, message: 0 },
                buf: Seq::<u8>::empty(),
                send: None,
                recv: None,
                term: None,
            }),
    {
        self.sid = self.sid + 1;
        Stream::new(self.sid)
    }

    /// Opens a stream for the RPC method named by `rpc`: allocates the next
    /// stream number and sends the Invoke packet.
    pub fn stream(&mut self, rpc: &[u8]) -> (r: Result<Stream, stream::Error>)
        requires
            old(self).sid() < u64::MAX,
        ensures
            final(self).sid() == old(self).sid() + 1,
            final(self).trv().reliable() == old(self).trv().reliable(),
            (old(self).trv().failure() is None && old(self).trv().reliable()) ==> r is Ok,
            match r {
                Ok(st) => {
                    &&& st@ == (StreamV {
                        id: crate::id::ID {
                            stream: (old(self).sid() + 1) as u64,
                            message: 1,
                        },
                        buf: rpc@,
                        send: None,
                        recv: None,
                        term: None,
                    })
                    &&& final(self).trv().failure() is None
                    &&& final(self).trv().sent() == old(self).trv().sent()
                        + stream::packet_bytes(
                        crate::id::ID { stream: (old(self).sid() + 1) as u64, message: 1 },
                        1,
                        rpc@,
                    )
                },
                Err(e) => e@ is TransportError,
            },
    {
        let mut st = self.new_stream();
        match st.invoke(&mut self.tr, rpc) {
            Ok(_) => Ok(st),
            Err(e) => Err(e),
        }
    }

    /// The whole of a one-message RPC: open a stream, send `input`, close
    /// the sending side, receive one reply into `out`, close the stream.
    /// On success, exactly the Invoke, Message, CloseSend and Close packets
    /// went out, in that order under message numbers one to four, and the
    /// reply decodes from the payload that the receive state machine
    /// delivered to the new stream.
    pub fn invoke_into<In: enc::Marshal, Out: enc::Unmarshal>(
        &mut self,
        rpc: &[u8],
        input: &In,
        out: &mut Out,
    ) -> (r: Result<(), stream::Error>)
        requires
            old(self).sid() < u64::MAX,
        ensures
            final(self).sid() == old(self).sid() + 1,
            final(self).trv().reliable() == old(self).trv().reliable(),
            (old(self).trv().failure() is None && old(self).trv().reliable()) ==> !(r matches Err(
                e,
            ) && e@ == stream::ErrorV::TransportError(transport::Error::IOError)),
            r is Ok ==> {
                &&& input.enc_ok()
                &&& final(self).trv().failure() is None
                &&& final(self).trv().sent() == old(self).trv().sent() + stream::packet_bytes(
                    ID { stream: (old(self).sid() + 1) as u64, message: 1 },
                    1,
                    rpc@,
                ) + stream::packet_bytes(
                    ID { stream: (old(self).sid() + 1) as u64, message: 2 },
                    2,
                    input.enc(),
                ) + stream::packet_bytes(
                    ID { stream: (old(self).sid() + 1) as u64, message: 3 },
                    6,
                    Seq::<u8>::empty(),
                ) + stream::packet_bytes(
                    ID { stream: (old(self).sid() + 1) as u64, message: 4 },
                    5,
                    Seq::<u8>::empty(),
                )
                &&& final(self).trv().flushed() == final(self).trv().sent()
                &&& exists|a: Seq<u8>|
                    #[trigger] stream::srecv(
                        a,
                        StreamV {
                            id: ID { stream: (old(self).sid() + 1) as u64, message: 3 },
                            buf: Seq::<u8>::empty(),
                            send: Some(StateV::SendClosed),
                            recv: None,
                            term: None,
                        },
                    ) matches RecvOut::Delivered { data, .. } && Out::dec_ok(data)
                        && Out::decodes(data, *final(out))
            },
    {
        let ghost pre_recv_view = StreamV {
            id: ID { stream: (old(self).sid() + 1) as u64, message: 3 },
            buf: Seq::<u8>::empty(),
            send: Some(StateV::SendClosed),
            recv: None,
            term: None,
        };
        let mut st = self.new_stream();
        match st.invoke(&mut self.tr, rpc) {
            Ok(_) => {},
            Err(e) => {
                return Err(e);
            },
        }
        match st.send(&mut self.tr, input) {
            Ok(_) => {},
            Err(e) => {
                return Err(e);
            },
        }
        match st.close_send(&mut self.tr) {
            Ok(_) => {},
            Err(e) => {
                return Err(e);
            },
        }
        proof {
            assert(stream::blanked(st@) =~= pre_recv_view);
        }
        match st.recv_into(&mut self.tr, out) {
            Ok(_) => {},
            Err(e) => {
                return Err(e);
            },
        }
        proof {
            let aw = choose|a: Seq<u8>|
                stream::srecv(a, pre_recv_view) == (RecvOut::Delivered {
                    st: stream::blanked(st@),
                    data: st@.buf,
                    rest: self.tr.avail(),
                });
            stream::lemma_srecv_delivered_axes(aw, pre_recv_view);
            assert(stream::srecv(aw, pre_recv_view) matches RecvOut::Delivered { data, .. }
                && Out::dec_ok(data) && Out::decodes(data, *out));
        }
        match st.close(&mut self.tr) {
            Ok(_) => {},
            Err(e) => {
                return Err(e);
            },
        }
        Ok(())
    }
}

} // verus!
