//! The server side: reading invocations off a transport and handing each,
//! with a fresh stream, to the user's dispatcher.

use vstd::prelude::*;
use crate::packet::Kind;
use crate::packet::kind_of;
use crate::stream;
use crate::stream::State;
use crate::stream::Stream;
use crate::transport;
use crate::transport::Assembled;
use crate::transport::Transport;
use crate::wire::Wire;

verus! {

/// What scanning the incoming bytes for the next invocation comes to.
pub ghost enum FindOut {
    /// An Invoke packet: its payload, its stream number, and the bytes
    /// after it.
    Found { payload: Seq<u8>, sid: u64, rest: Seq<u8> },
    /// The transport fails before any Invoke arrives.
    Stopped { err: transport::Error },
}

/// The server's scan as a function of the incoming byte stream: packets of
/// every kind but Invoke are dropped, exactly as the reader drops them.
pub open spec fn find_invoke(avail: Seq<u8>) -> FindOut
    decreases avail.len(),
{
    match transport::assemble(avail) {
        Assembled::Packet { id, kc, data, rest } => {
            if rest.len() >= avail.len() {
                // Unreachable: a packet always consumes its frames.
                FindOut::Stopped { err: transport::Error::ParseError }
            } else if kind_of(kc) == Kind::Invoke {
                FindOut::Found { payload: data, sid: id.stream, rest }
            } else {
                find_invoke(rest)
            }
        },
        Assembled::Closed => FindOut::Stopped { err: transport::Error::RemoteClosed },
        Assembled::Monotonicity => FindOut::Stopped {
            err: transport::Error::IDMonotonicityError,
        },
        Assembled::KindChange => FindOut::Stopped {
            err: transport::Error::PacketKindChangeError,
        },
        Assembled::Overflow => FindOut::Stopped { err: transport::Error::DataOverflowError },
        Assembled::Malformed => FindOut::Stopped { err: transport::Error::ParseError },
    }
}

/// The user's service dispatcher: everything the server knows about the
/// RPCs it hosts.  `serve` receives the method name an Invoke carried and
/// the stream it opened, and drives the exchange to its end.
pub trait Mux {
    /// Handles one invocation on `st` over `tr`.
    fn serve<W: Wire>(
        &self,
        rpc: &Vec<u8>,
        st: &mut Stream,
        tr: &mut Transport<W>,
    ) -> (r: Result<(), stream::Error>);
}

/// A short account of a stream error, for the Error packet the server
/// sends back: a remote error keeps its own message, every other failure
/// is named.
pub open spec fn message_of(e: stream::ErrorV) -> Seq<char> {
    match e {
        stream::ErrorV::StateError(s) => match s {
            stream::StateV::RemoteError(c, m) => m,
            stream::StateV::Eof => "EOF"@,
            stream::StateV::InvalidInvoke => "invalid invoke"@,
            stream::StateV::Unknown(k) => "unknown packet kind"@,
            stream::StateV::RemoteClosed => "remote closed"@,
            stream::StateV::SendClosed => "send closed"@,
            stream::StateV::BothClosed => "terminated: both sides closed"@,
            stream::StateV::SentClose => "terminated: sent close"@,
            stream::StateV::SentError => "terminated: sent error"@,
        },
        stream::ErrorV::TransportError(t) => "transport error"@,
        stream::ErrorV::EncodingError => "encoding error"@,
    }
}

/// Renders a stream error as the text sent back to the peer.
pub fn error_message(e: &stream::Error) -> (r: String)
    ensures
        r@ == message_of(e@),
{
    match e {
        stream::Error::StateError(s) => match s {
            State::RemoteError(c, m) => m.clone(),
            State::EOF => "EOF".to_owned(),
            State::InvalidInvoke => "invalid invoke".to_owned(),
            State::UnknownPacketKind(k) => "unknown packet kind".to_owned(),
            State::RemoteClosed => "remote closed".to_owned(),
            State::SendClosed => "send closed".to_owned(),
            State::TerminatedBothClosed => "terminated: both sides closed".to_owned(),
            State::TerminatedSentClose => "terminated: sent close".to_owned(),
            State::TerminatedSentError => "terminated: sent error".to_owned(),
        },
        stream::Error::TransportError(t) => "transport error".to_owned(),
        stream::Error::EncodingError(c) => "encoding error".to_owned(),
    }
}

/// Waits for the next Invoke on `tr` — packets of any other kind are
/// dropped — and hands it to the dispatcher with a fresh stream.  Returns
/// whether the connection is worth another round: reading fails or the
/// dispatcher fails with anything but a plain end-of-stream, and the
/// connection is done; in the latter case an Error packet with code 10
/// carries the failure's text to the peer first.
pub fn serve_next<W: Wire, M: Mux>(tr: &mut Transport<W>, mbuf: &mut Vec<u8>, mux: &M) -> (r: bool)
    ensures
        old(tr).failure() matches Some(e) ==> r == false && *final(tr) == *old(tr) && final(mbuf)@ == old(mbuf)@,
        old(tr).failure() is None ==> {
            &&& (find_invoke(old(tr).avail()) is Stopped ==> r == false)
            &&& (r == true ==> find_invoke(old(tr).avail()) is Found)
            &&& ((old(tr).reliable() && old(tr).tidy() && transport::spans_fit(old(tr).avail()))
                ==> (find_invoke(old(tr).avail()) matches FindOut::Found { payload, .. } ==> final(mbuf)@ == payload))
        },
{
    loop
        invariant
            old(tr).failure() is None ==> tr.failure() is None,
            old(tr).failure() is Some ==> *tr == *old(tr) && mbuf@ == old(mbuf)@,
            old(tr).failure() is None ==> find_invoke(old(tr).avail()) == find_invoke(tr.avail()),
            tr.reliable() == old(tr).reliable(),
            old(tr).tidy() ==> tr.tidy(),
            transport::spans_fit(old(tr).avail()) ==> transport::spans_fit(tr.avail()),
        decreases tr.avail().len(),
    {
        let ghost pre_avail = tr.avail();
        let (id, kind) = match tr.read_packet_into(mbuf) {
            Ok(p) => p,
            Err(e) => {
                return false;
            },
        };
        proof {
            crate::transport::lemma_assemble_rest(
                pre_avail,
                crate::id::ID { stream: 0, message: 0 },
                0,
                Seq::empty(),
            );
            if transport::spans_fit(pre_avail) {
                crate::transport::lemma_assemble_spans(
                    pre_avail,
                    crate::id::ID { stream: 0, message: 0 },
                    0,
                    Seq::empty(),
                );
            }
        }
        match kind {
            Kind::Invoke => {
                let mut st = Stream::new(id.stream);
                match mux.serve(mbuf, &mut st, tr) {
                    Ok(_) => {
                        return true;
                    },
                    Err(stream::Error::StateError(State::EOF)) => {
                        return true;
                    },
                    Err(err) => {
                        let msg = error_message(&err);
                        if st.message_id() < u64::MAX {
                            let _ = st.error(tr, msg.as_str(), 10);
                        }
                        return false;
                    },
                }
            },
            _ => {
                continue ;
            },
        }
    }
}

} // verus!
