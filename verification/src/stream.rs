//! The per-stream state machine: three write-once axes — sending closed,
//! receiving closed, terminated — driven by local operations and by the
//! kinds of the packets that arrive.

use vstd::prelude::*;
use vstd::string::StringSliceAdditionalSpecFns;
use crate::enc;
use crate::id::ID;
use crate::packet::Kind;
use crate::packet::Packet;
use crate::packet::code_of;
use crate::packet::kind_of;
use crate::split;
use crate::transport;
use crate::transport::Assembled;
use crate::transport::Transport;
use crate::wire::Wire;

verus! {

/// Payload size at which an outgoing packet is cut into several frames.
pub const FRAG_LIMIT: usize = 64 * 1024;

/// A terminal condition of one axis of a stream.  Once set on its axis it
/// is never overwritten, and every further matching operation returns it.
#[derive(Debug, PartialEq, Eq, Clone)]
pub enum State {
    /// The axis is closed for good; nothing more passes it.
    EOF,
    /// An Invoke packet arrived on a stream already open.
    InvalidInvoke,
    /// A packet of an unassigned kind arrived.
    UnknownPacketKind(Kind),
    /// The peer terminated the stream with this code and message.
    RemoteError(u64, String),
    /// The peer closed the stream, or the channel ended.
    RemoteClosed,
    /// This side will send no further messages.
    SendClosed,
    /// Both directions are closed.
    TerminatedBothClosed,
    /// This side sent a Close packet.
    TerminatedSentClose,
    /// This side sent an Error packet.
    TerminatedSentError,
}

/// The mathematical content of a `State`.
#[verifier::ext_equal]
pub ghost enum StateV {
    Eof,
    InvalidInvoke,
    Unknown(Kind),
    RemoteError(u64, Seq<char>),
    RemoteClosed,
    SendClosed,
    BothClosed,
    SentClose,
    SentError,
}

impl View for State {
    type V = StateV;

    open spec fn view(&self) -> StateV {
        match self {
            State::EOF => StateV::Eof,
            State::InvalidInvoke => StateV::InvalidInvoke,
            State::UnknownPacketKind(k) => StateV::Unknown(*k),
            State::RemoteError(c, m) => StateV::RemoteError(*c, m@),
            State::RemoteClosed => StateV::RemoteClosed,
            State::SendClosed => StateV::SendClosed,
            State::TerminatedBothClosed => StateV::BothClosed,
            State::TerminatedSentClose => StateV::SentClose,
            State::TerminatedSentError => StateV::SentError,
        }
    }
}

/// The view of an optional state.
pub open spec fn ov(o: Option<State>) -> Option<StateV> {
    match o {
        Some(s) => Some(s@),
        None => None,
    }
}

/// Why a stream operation failed.
#[derive(Debug, PartialEq, Eq)]
pub enum Error {
    /// The stream state machine refused the operation.
    StateError(State),
    /// The transport under the stream failed.
    TransportError(transport::Error),
    /// The user's codec refused the value.
    EncodingError(enc::Error),
}

/// The mathematical content of a stream error.
#[verifier::ext_equal]
pub ghost enum ErrorV {
    StateError(StateV),
    TransportError(transport::Error),
    EncodingError,
}

impl View for Error {
    type V = ErrorV;

    open spec fn view(&self) -> ErrorV {
        match self {
            Error::StateError(s) => ErrorV::StateError(s@),
            Error::TransportError(e) => ErrorV::TransportError(*e),
            Error::EncodingError(e) => ErrorV::EncodingError,
        }
    }
}

/// Copies a state value.
fn dup_state(s: &State) -> (r: State)
    ensures
        r@ == s@,
{
    match s {
        State::EOF => State::EOF,
        State::InvalidInvoke => State::InvalidInvoke,
        State::UnknownPacketKind(k) => State::UnknownPacketKind(*k),
        State::RemoteError(c, m) => State::RemoteError(*c, m.clone()),
        State::RemoteClosed => State::RemoteClosed,
        State::SendClosed => State::SendClosed,
        State::TerminatedBothClosed => State::TerminatedBothClosed,
        State::TerminatedSentClose => State::TerminatedSentClose,
        State::TerminatedSentError => State::TerminatedSentError,
    }
}

/// Writes `s` into `o` only if `o` holds nothing yet.
fn set_once(o: &mut Option<State>, s: State)
    ensures
        ov(*final(o)) == set_once_v(ov(*old(o)), s@),
{
    if o.is_none() {
        *o = Some(s);
    }
}

/// The write-once discipline: a value already present stays.
pub open spec fn set_once_v(o: Option<StateV>, v: StateV) -> Option<StateV> {
    match o {
        Some(w) => Some(w),
        None => Some(v),
    }
}

/// The big-endian reading of eight bytes.
pub open spec fn be64(s: Seq<u8>) -> u64 {
    ((s[0] as u64) << 56) | ((s[1] as u64) << 48) | ((s[2] as u64) << 40) | ((s[3] as u64) << 32)
        | ((s[4] as u64) << 24) | ((s[5] as u64) << 16) | ((s[6] as u64) << 8) | (s[7] as u64)
}

/// The characters that a lossy UTF-8 reading of `b` yields.
pub uninterp spec fn lossy_of(b: Seq<u8>) -> Seq<char>;

/// Relies on String::from_utf8_lossy: the result is a function of the bytes
/// alone, and valid UTF-8 — in particular plain ASCII — passes through
/// unchanged.
#[verifier::external_body]
fn lossy_string(b: &[u8]) -> (r: String)
    ensures
        r@ == lossy_of(b@),
        (forall|i: int| 0 <= i < b@.len() ==> b@[i] < 128) ==> r@ == Seq::new(
            b@.len(),
            |i: int| b@[i] as char,
        ),
{
    String::from_utf8_lossy(b).into_owned()
}

/// The state that an Error packet's payload denotes: an 8-byte big-endian
/// code, then the message bytes read as UTF-8.
pub open spec fn remote_error_of(b: Seq<u8>) -> StateV {
    if b.len() < 8 {
        StateV::RemoteError(0, "invalid error message"@)
    } else {
        StateV::RemoteError(be64(b.take(8)), lossy_of(b.skip(8)))
    }
}

/// Reads the code and message out of an Error packet's payload.
pub fn parse_remote_error(buf: &Vec<u8>) -> (s: State)
    ensures
        s@ == remote_error_of(buf@),
{
    if buf.len() < 8 {
        return State::RemoteError(0, "invalid error message".to_owned());
    }
    let b0 = buf[0];
    let b1 = buf[1];
    let b2 = buf[2];
    let b3 = buf[3];
    let b4 = buf[4];
    let b5 = buf[5];
    let b6 = buf[6];
    let b7 = buf[7];
    let code = ((b0 as u64) << 56) | ((b1 as u64) << 48) | ((b2 as u64) << 40) | ((b3 as u64)
        << 32) | ((b4 as u64) << 24) | ((b5 as u64) << 16) | ((b6 as u64) << 8) | (b7 as u64);
    let msg = lossy_string(vstd::slice::slice_subrange(buf.as_slice(), 8, buf.len()));
    proof {
        assert(buf@.take(8)[0] == buf@[0]);
        assert(buf@.take(8)[1] == buf@[1]);
        assert(buf@.take(8)[2] == buf@[2]);
        assert(buf@.take(8)[3] == buf@[3]);
        assert(buf@.take(8)[4] == buf@[4]);
        assert(buf@.take(8)[5] == buf@[5]);
        assert(buf@.take(8)[6] == buf@[6]);
        assert(buf@.take(8)[7] == buf@[7]);
        assert(buf@.subrange(8, buf@.len() as int) =~= buf@.skip(8));
    }
    State::RemoteError(code, msg)
}

/// The big-endian bytes of a 64-bit value, most significant first.
pub open spec fn be_bytes(x: u64) -> Seq<u8> {
    seq![
        (x >> 56) as u8,
        (x >> 48) as u8,
        (x >> 40) as u8,
        (x >> 32) as u8,
        (x >> 24) as u8,
        (x >> 16) as u8,
        (x >> 8) as u8,
        x as u8,
    ]
}

/// Law: reading back the big-endian bytes of a value restores it.
pub proof fn lemma_be_roundtrip(x: u64)
    ensures
        be64(be_bytes(x)) == x,
{
    assert((((x >> 56) as u8) as u64) << 56 | (((x >> 48) as u8) as u64) << 48 | (((x
        >> 40) as u8) as u64) << 40 | (((x >> 32) as u8) as u64) << 32 | (((x
        >> 24) as u8) as u64) << 24 | (((x >> 16) as u8) as u64) << 16 | (((x >> 8) as u8) as u64)
        << 8 | ((x as u8) as u64) == x) by (bit_vector);
}

/// Law: an Error payload built from a code and a message reads back as that
/// code and the message's characters.
pub proof fn lemma_error_payload(code: u64, msgb: Seq<u8>)
    ensures
        remote_error_of(be_bytes(code) + msgb) == StateV::RemoteError(code, lossy_of(msgb)),
{
    lemma_be_roundtrip(code);
    let p = be_bytes(code) + msgb;
    assert(p.take(8) =~= be_bytes(code));
    assert(p.skip(8) =~= msgb);
}

/// The serialization of one whole outgoing packet: its payload split into
/// frames of at most `FRAG_LIMIT` bytes, each frame serialized in turn.
pub open spec fn packet_bytes(id: ID, kc: u8, data: Seq<u8>) -> Seq<u8> {
    transport::frames_bytes(split::split_frames(data, FRAG_LIMIT as int, id, kc))
}

/// Concatenation on the left cancels.
proof fn lemma_concat_cancel(a: Seq<u8>, b: Seq<u8>, c: Seq<u8>)
    requires
        a + b == a + c,
    ensures
        b == c,
{
    assert((a + b).len() == (a + c).len());
    assert(b =~= (a + b).subrange(a.len() as int, (a + b).len() as int));
    assert(c =~= (a + c).subrange(a.len() as int, (a + c).len() as int));
}

/// Law: the wire bytes of one outgoing packet, followed by anything,
/// reassemble on the receiving side to exactly that packet, leaving the
/// rest untouched.  This ties the splitter, the frame codec and the
/// reassembler together.
pub proof fn lemma_packet_roundtrip(id: ID, kc: u8, data: Seq<u8>, extra: Seq<u8>)
    requires
        crate::id::id_lt(ID { stream: 0, message: 0 }, id),
        kc < 64,
        data.len() <= transport::MAX_PACKET as int,
    ensures
        transport::assemble(packet_bytes(id, kc, data) + extra) == (Assembled::Packet {
            id,
            kc,
            data,
            rest: extra,
        }),
        transport::spans_fit(extra) ==> transport::spans_fit(packet_bytes(id, kc, data) + extra),
{
    let fs = split::split_frames(data, FRAG_LIMIT as int, id, kc);
    split::lemma_split_law(data, FRAG_LIMIT as int, id, kc);
    lemma_frames_data_is_flat(fs);
    assert(transport::frames_data(fs) == data);
    assert forall|i: int| 0 <= i < fs.len() implies {
        let f = #[trigger] fs[i];
        &&& f.id == id
        &&& f.kind == kc
        &&& !f.control
        &&& crate::frame::wf_frame(f)
        &&& (f.done <==> i == fs.len() - 1)
        &&& crate::frame::frame_bytes(f).len() <= transport::span_limit()
    } by {
        let f = fs[i];
        assert(f.data.len() <= FRAG_LIMIT as int);
        crate::varint::lemma_encode_props(f.id.stream);
        crate::varint::lemma_encode_props(f.id.message);
        crate::varint::lemma_encode_props(f.data.len() as u64);
    }
    transport::lemma_reassembly(fs, id, kc, extra);
}

/// The concatenated frame payloads of a split are the split packet's
/// payload.
proof fn lemma_frames_data_is_flat(fs: Seq<crate::frame::FrameV>)
    ensures
        transport::frames_data(fs) == split::flat(Seq::new(fs.len(), |i: int| fs[i].data)),
    decreases fs.len(),
{
    let m = Seq::new(fs.len(), |i: int| fs[i].data);
    if fs.len() == 0 {
        assert(m =~= Seq::<Seq<u8>>::empty());
    } else {
        lemma_frames_data_is_flat(fs.skip(1));
        assert(m.skip(1) =~= Seq::new(fs.skip(1).len(), |i: int| fs.skip(1)[i].data));
        assert(m[0] == fs[0].data);
    }
}

/// Law: the wire bytes of the client's opening half of an exchange —
/// invoke, one message, close-send — reassemble on the serving side as
/// exactly an Invoke, a Message and a CloseSend packet, with message
/// numbers one, two and three.
pub proof fn lemma_half_close_observed(sid: u64, rpc: Seq<u8>, msg: Seq<u8>, tail: Seq<u8>)
    requires
        sid > 0,
        rpc.len() <= transport::MAX_PACKET as int,
        msg.len() <= transport::MAX_PACKET as int,
    ensures
        ({
            let w1 = packet_bytes(ID { stream: sid, message: 1 }, 1, rpc);
            let w2 = packet_bytes(ID { stream: sid, message: 2 }, 2, msg);
            let w3 = packet_bytes(ID { stream: sid, message: 3 }, 6, Seq::<u8>::empty());
            &&& transport::assemble(w1 + w2 + w3 + tail) == (Assembled::Packet {
                id: ID { stream: sid, message: 1 },
                kc: 1,
                data: rpc,
                rest: w2 + w3 + tail,
            })
            &&& transport::assemble(w2 + w3 + tail) == (Assembled::Packet {
                id: ID { stream: sid, message: 2 },
                kc: 2,
                data: msg,
                rest: w3 + tail,
            })
            &&& transport::assemble(w3 + tail) == (Assembled::Packet {
                id: ID { stream: sid, message: 3 },
                kc: 6,
                data: Seq::<u8>::empty(),
                rest: tail,
            })
        }),
{
    let w1 = packet_bytes(ID { stream: sid, message: 1 }, 1, rpc);
    let w2 = packet_bytes(ID { stream: sid, message: 2 }, 2, msg);
    let w3 = packet_bytes(ID { stream: sid, message: 3 }, 6, Seq::<u8>::empty());
    lemma_packet_roundtrip(ID { stream: sid, message: 1 }, 1, rpc, w2 + w3 + tail);
    lemma_packet_roundtrip(ID { stream: sid, message: 2 }, 2, msg, w3 + tail);
    lemma_packet_roundtrip(ID { stream: sid, message: 3 }, 6, Seq::<u8>::empty(), tail);
    assert(w1 + w2 + w3 + tail =~= w1 + (w2 + w3 + tail));
    assert(w2 + w3 + tail =~= w2 + (w3 + tail));
}

/// A delivered message never moves the state axes: receiving drives them
/// only toward refusals.
pub proof fn lemma_srecv_delivered_axes(a: Seq<u8>, st: StreamV)
    ensures
        srecv(a, st) matches RecvOut::Delivered { st: st2, .. } ==> st2 == blanked(st),
    decreases a.len(),
{
    if st.term is None && st.recv is None {
        match transport::assemble(a) {
            Assembled::Packet { id, kc, data, rest } => {
                if rest.len() < a.len() {
                    if id.stream != st.id.stream {
                        lemma_srecv_delivered_axes(rest, blanked(st));
                        assert(blanked(blanked(st)) =~= blanked(st));
                    } else {
                        match kind_of(kc) {
                            Kind::Message => {},
                            Kind::Invoke => {
                                lemma_srecv_delivered_axes(
                                    rest,
                                    StreamV {
                                        term: set_once_v(st.term, StateV::InvalidInvoke),
                                        ..blanked(st)
                                    },
                                );
                            },
                            Kind::Error => {
                                lemma_srecv_delivered_axes(
                                    rest,
                                    StreamV {
                                        send: set_once_v(st.send, StateV::Eof),
                                        term: set_once_v(st.term, remote_error_of(data)),
                                        ..blanked(st)
                                    },
                                );
                            },
                            Kind::Close => {},
                            Kind::CloseSend => {},
                            k => {
                                lemma_srecv_delivered_axes(
                                    rest,
                                    StreamV {
                                        term: set_once_v(st.term, StateV::Unknown(k)),
                                        ..blanked(st)
                                    },
                                );
                            },
                        }
                    }
                }
            },
            _ => {},
        }
    }
}

/// A stream with its scratch buffer blanked: what the receive recursion
/// tracks, since the buffer is overwritten by every packet read.
pub open spec fn blanked(st: StreamV) -> StreamV {
    StreamV { buf: Seq::<u8>::empty(), ..st }
}

/// What receiving comes to.
pub ghost enum RecvOut {
    /// A message arrived: its payload, the stream afterwards, and the bytes
    /// still unread.
    Delivered { st: StreamV, data: Seq<u8>, rest: Seq<u8> },
    /// The state machine refused: the standing state returned, and the
    /// stream afterwards.
    Refused { err: StateV, st: StreamV },
    /// The transport beneath failed; stream axes as they were at that
    /// point.
    Failed { err: transport::Error, st: StreamV },
}

/// The receive loop as a function of the incoming byte stream and the
/// stream state: packets are taken off the stream one at a time; packets of
/// other streams are dropped; each kind drives the axes as the state table
/// says; a Message is delivered.  All states carried are `core`d.
pub open spec fn srecv(avail: Seq<u8>, st: StreamV) -> RecvOut
    decreases avail.len(),
{
    if st.term is Some {
        RecvOut::Refused { err: st.term.unwrap(), st: blanked(st) }
    } else if st.recv is Some {
        RecvOut::Refused { err: st.recv.unwrap(), st: blanked(st) }
    } else {
        match transport::assemble(avail) {
            Assembled::Packet { id, kc, data, rest } => {
                if rest.len() >= avail.len() {
                    // Unreachable: a packet always consumes its frames.
                    RecvOut::Failed { err: transport::Error::ParseError, st: blanked(st) }
                } else if id.stream != st.id.stream {
                    srecv(rest, blanked(st))
                } else {
                    match kind_of(kc) {
                        Kind::Message => RecvOut::Delivered { st: blanked(st), data, rest },
                        Kind::Invoke => srecv(
                            rest,
                            StreamV {
                                term: set_once_v(st.term, StateV::InvalidInvoke),
                                ..blanked(st)
                            },
                        ),
                        Kind::Error => srecv(
                            rest,
                            StreamV {
                                send: set_once_v(st.send, StateV::Eof),
                                term: set_once_v(st.term, remote_error_of(data)),
                                ..blanked(st)
                            },
                        ),
                        Kind::Close => RecvOut::Refused {
                            err: StateV::RemoteClosed,
                            st: StreamV {
                                recv: set_once_v(st.recv, StateV::Eof),
                                term: set_once_v(st.term, StateV::RemoteClosed),
                                ..blanked(st)
                            },
                        },
                        Kind::CloseSend => RecvOut::Refused {
                            err: if st.send is Some {
                                StateV::BothClosed
                            } else {
                                StateV::Eof
                            },
                            st: StreamV {
                                recv: set_once_v(st.recv, StateV::Eof),
                                term: if st.send is Some {
                                    set_once_v(st.term, StateV::BothClosed)
                                } else {
                                    st.term
                                },
                                ..blanked(st)
                            },
                        },
                        k => srecv(
                            rest,
                            StreamV { term: set_once_v(st.term, StateV::Unknown(k)), ..blanked(st) },
                        ),
                    }
                }
            },
            Assembled::Closed => RecvOut::Refused {
                err: StateV::RemoteClosed,
                st: StreamV {
                    recv: set_once_v(st.recv, StateV::Eof),
                    term: set_once_v(st.term, StateV::RemoteClosed),
                    ..blanked(st)
                },
            },
            Assembled::Monotonicity => RecvOut::Failed {
                err: transport::Error::IDMonotonicityError,
                st: blanked(st),
            },
            Assembled::KindChange => RecvOut::Failed {
                err: transport::Error::PacketKindChangeError,
                st: blanked(st),
            },
            Assembled::Overflow => RecvOut::Failed {
                err: transport::Error::DataOverflowError,
                st: blanked(st),
            },
            Assembled::Malformed => RecvOut::Failed {
                err: transport::Error::ParseError,
                st: blanked(st),
            },
        }
    }
}

/// One logical RPC: an identifier, a scratch buffer for payloads, and the
/// three write-once state axes.
pub struct Stream {
    id: ID,
    buf: Vec<u8>,
    send: Option<State>,
    recv: Option<State>,
    term: Option<State>,
}

/// The mathematical content of a stream.
#[verifier::ext_equal]
pub ghost struct StreamV {
    pub id: ID,
    pub buf: Seq<u8>,
    pub send: Option<StateV>,
    pub recv: Option<StateV>,
    pub term: Option<StateV>,
}

impl View for Stream {
    type V = StreamV;

    closed spec fn view(&self) -> StreamV {
        StreamV {
            id: self.id,
            buf: self.buf@,
            send: ov(self.send),
            recv: ov(self.recv),
            term: ov(self.term),
        }
    }
}

impl Stream {
    /// Opens the bookkeeping for stream number `sid`: message numbering
    /// starts at zero and all three axes are clear.
    pub fn new(sid: u64) -> (s: Stream)
        ensures
            s@ == (StreamV {
                id: ID { stream: sid, message: 0 },
                buf: Seq::<u8>::empty(),
                send: None,
                recv: None,
                term: None,
            }),
    {
        let s = Stream { id: ID::new(sid, 0), buf: Vec::new(), send: None, recv: None, term: None };
        proof {
            assert(s@ =~= (StreamV {
                id: ID { stream: sid, message: 0 },
                buf: Seq::<u8>::empty(),
                send: None,
                recv: None,
                term: None,
            }));
        }
        s
    }

    /// The stream number.
    pub fn id(&self) -> (r: u64)
        ensures
            r == self@.id.stream,
    {
        self.id.stream
    }

    /// The number of the last message sent on this stream.
    pub fn message_id(&self) -> (r: u64)
        ensures
            r == self@.id.message,
    {
        self.id.message
    }

    /// Serializes the scratch buffer as one packet of the given kind under
    /// the next message number, and hands its frames to the transport.
    /// Does not flush.
    fn write_buf<W: Wire>(&mut self, tr: &mut Transport<W>, kind: Kind) -> (r: Result<(), Error>)
        requires
            old(self)@.id.message < u64::MAX,
        ensures
            final(self)@ == (StreamV {
                id: ID {
                    stream: old(self)@.id.stream,
                    message: (old(self)@.id.message + 1) as u64,
                },
                ..old(self)@
            }),
            final(tr).tidy() == old(tr).tidy(),
            final(tr).reliable() == old(tr).reliable(),
            (old(tr).failure() is None && old(tr).reliable()) ==> r is Ok,
            (old(tr).failure() is None && old(tr).pending().len() + packet_bytes(
                ID {
                    stream: old(self)@.id.stream,
                    message: (old(self)@.id.message + 1) as u64,
                },
                code_of(kind),
                old(self)@.buf,
            ).len() < transport::WRITE_LIMIT) ==> {
                &&& r is Ok
                &&& final(tr).flushed() == old(tr).flushed()
                &&& final(tr).avail() == old(tr).avail()
                &&& final(tr).pending() == old(tr).pending() + packet_bytes(
                    ID {
                        stream: old(self)@.id.stream,
                        message: (old(self)@.id.message + 1) as u64,
                    },
                    code_of(kind),
                    old(self)@.buf,
                )
            },
            match r {
                Ok(_) => {
                    &&& old(tr).failure() is None
                    &&& final(tr).failure() is None
                    &&& final(tr).sent() == old(tr).sent() + packet_bytes(
                        final(self)@.id,
                        code_of(kind),
                        old(self)@.buf,
                    )
                },
                Err(e) => e@ matches ErrorV::TransportError(te) && ((old(tr).failure() == Some(te)
                    && *final(tr) == *old(tr)) || (te == transport::Error::IOError && final(tr).failure() == Some(transport::Error::IOError))),
            },
    {
        self.id = ID::new(self.id.stream, self.id.message + 1);
        let data = vstd::slice::slice_to_vec(self.buf.as_slice());
        let pkt = Packet { data, id: self.id, kind };
        let mut sp = split::split(&pkt, FRAG_LIMIT);
        let ghost total = split::split_frames(self.buf@, FRAG_LIMIT as int, self.id, code_of(kind));
        let ghost sent0 = tr.sent();
        proof {
            split::lemma_split_law(self.buf@, FRAG_LIMIT as int, self.id, code_of(kind));
            assert(sp.rem() =~~= total);
        }
        loop
            invariant
                old(self)@.id.message < u64::MAX,
                self@ == (StreamV {
                    id: ID {
                        stream: old(self)@.id.stream,
                        message: (old(self)@.id.message + 1) as u64,
                    },
                    ..old(self)@
                }),
                tr.failure() == old(tr).failure(),
                tr.failure() is None || *tr == *old(tr),
                tr.tidy() == old(tr).tidy(),
                tr.reliable() == old(tr).reliable(),
                sent0 == old(tr).sent(),
                (old(tr).failure() is None && old(tr).pending().len()
                    + transport::frames_bytes(total).len() < transport::WRITE_LIMIT) ==> {
                    &&& tr.failure() is None
                    &&& tr.flushed() == old(tr).flushed()
                    &&& tr.avail() == old(tr).avail()
                    &&& tr.pending().len() + transport::frames_bytes(sp.rem()).len() == old(
                        tr,
                    ).pending().len() + transport::frames_bytes(total).len()
                },
                total == split::split_frames(
                    old(self)@.buf,
                    FRAG_LIMIT as int,
                    ID {
                        stream: old(self)@.id.stream,
                        message: (old(self)@.id.message + 1) as u64,
                    },
                    code_of(kind),
                ),
                tr.sent() + transport::frames_bytes(sp.rem()) == sent0 + transport::frames_bytes(
                    total,
                ),
            decreases sp.rem().len(),
        {
            let ghost rem0 = sp.rem();
            match sp.next() {
                None => {
                    proof {
                        assert(transport::frames_bytes(Seq::<crate::frame::FrameV>::empty())
                            == Seq::<u8>::empty());
                        assert(tr.sent() + Seq::<u8>::empty() =~= tr.sent());
                        assert(sent0 + transport::frames_bytes(total) == tr.sent());
                        if old(tr).failure() is None && old(tr).pending().len()
                            + transport::frames_bytes(total).len() < transport::WRITE_LIMIT {
                            old(tr).lemma_sent_split();
                            tr.lemma_sent_split();
                            assert(tr.flushed() + tr.pending() =~= old(tr).flushed() + (old(
                                tr,
                            ).pending() + transport::frames_bytes(total))) by {
                                assert((old(tr).flushed() + old(tr).pending())
                                    + transport::frames_bytes(total) =~= old(tr).flushed() + (old(
                                    tr,
                                ).pending() + transport::frames_bytes(total)));
                            }
                            lemma_concat_cancel(
                                old(tr).flushed(),
                                tr.pending(),
                                old(tr).pending() + transport::frames_bytes(total),
                            );
                        }
                    }
                    return Ok(());
                },
                Some(fr) => {
                    let ghost sent_pre = tr.sent();
                    let ghost pend_pre = tr.pending();
                    proof {
                        assert(transport::frames_bytes(rem0) == crate::frame::frame_bytes(rem0[0])
                            + transport::frames_bytes(rem0.skip(1)));
                    }
                    match tr.write_frame(&fr) {
                        Ok(_) => {
                            proof {
                                assert(transport::frames_bytes(rem0) == crate::frame::frame_bytes(
                                    rem0[0],
                                ) + transport::frames_bytes(rem0.skip(1)));
                                if old(tr).failure() is None && old(tr).pending().len()
                                    + transport::frames_bytes(total).len()
                                    < transport::WRITE_LIMIT {
                                    assert(pend_pre.len() + crate::frame::frame_bytes(fr@).len()
                                        < transport::WRITE_LIMIT);
                                    assert(tr.pending() =~= pend_pre + crate::frame::frame_bytes(
                                        fr@,
                                    ));
                                }
                                assert((sent_pre + crate::frame::frame_bytes(fr@))
                                    + transport::frames_bytes(sp.rem()) =~= sent_pre + (
                                crate::frame::frame_bytes(fr@) + transport::frames_bytes(
                                    sp.rem(),
                                )));
                            }
                        },
                        Err(e) => {
                            return Err(Error::TransportError(e));
                        },
                    }
                },
            }
        }
    }

    /// Opens the stream on the wire: sends one Invoke packet whose payload
    /// names the RPC method.  Does not flush.
    pub fn invoke<W: Wire>(&mut self, tr: &mut Transport<W>, rpc: &[u8]) -> (r: Result<(), Error>)
        requires
            old(self)@.id.message < u64::MAX,
        ensures
            final(self)@ == (StreamV {
                id: ID {
                    stream: old(self)@.id.stream,
                    message: (old(self)@.id.message + 1) as u64,
                },
                buf: rpc@,
                ..old(self)@
            }),
            final(tr).reliable() == old(tr).reliable(),
            (old(tr).failure() is None && old(tr).reliable()) ==> r is Ok,
            (old(tr).failure() is None && old(tr).pending().len() + packet_bytes(
                ID {
                    stream: old(self)@.id.stream,
                    message: (old(self)@.id.message + 1) as u64,
                },
                1,
                rpc@,
            ).len() < transport::WRITE_LIMIT) ==> {
                &&& r is Ok
                &&& final(tr).flushed() == old(tr).flushed()
                &&& final(tr).avail() == old(tr).avail()
                &&& final(tr).pending() == old(tr).pending() + packet_bytes(
                    ID {
                        stream: old(self)@.id.stream,
                        message: (old(self)@.id.message + 1) as u64,
                    },
                    1,
                    rpc@,
                )
            },
            match r {
                Ok(_) => {
                    &&& old(tr).failure() is None
                    &&& final(tr).failure() is None
                    &&& final(tr).sent() == old(tr).sent() + packet_bytes(
                        final(self)@.id,
                        1,
                        rpc@,
                    )
                },
                Err(e) => e@ matches ErrorV::TransportError(te) && ((old(tr).failure() == Some(te)
                    && *final(tr) == *old(tr)) || (te == transport::Error::IOError && final(tr).failure() == Some(transport::Error::IOError))),
            },
    {
        self.buf.clear();
        self.buf.extend_from_slice(rpc);
        proof {
            assert(self.buf@ =~= rpc@);
        }
        let r = self.write_buf(tr, Kind::Invoke);
        proof {
            assert(self@ =~= (StreamV {
                id: ID {
                    stream: old(self)@.id.stream,
                    message: (old(self)@.id.message + 1) as u64,
                },
                buf: rpc@,
                ..old(self)@
            }));
        }
        r
    }

    /// Sends one application message.  Refused with the standing state
    /// when sending is closed or the stream is terminated; an encoding
    /// failure leaves the stream as it was.
    pub fn send<W: Wire, In: enc::Marshal>(
        &mut self,
        tr: &mut Transport<W>,
        input: &In,
    ) -> (r: Result<(), Error>)
        requires
            (old(self)@.send is None && old(self)@.term is None && input.enc_ok()) ==> old(
                self,
            )@.id.message < u64::MAX,
        ensures
            final(tr).reliable() == old(tr).reliable(),
            (old(self)@.send is None && old(self)@.term is None && input.enc_ok() && old(
                tr,
            ).failure() is None && old(tr).reliable()) ==> r is Ok,
            old(self)@.send matches Some(s) ==> {
                &&& r matches Err(e) && e@ == ErrorV::StateError(s)
                &&& final(self)@ == old(self)@
                &&& *final(tr) == *old(tr)
            },
            old(self)@.send is None ==> (old(self)@.term matches Some(t) ==> {
                &&& r matches Err(e) && e@ == ErrorV::StateError(t)
                &&& final(self)@ == old(self)@
                &&& *final(tr) == *old(tr)
            }),
            (old(self)@.send is None && old(self)@.term is None && !input.enc_ok()) ==> {
                &&& r matches Err(e) && e@ == ErrorV::EncodingError
                &&& final(self)@ == (StreamV { buf: final(self)@.buf, ..old(self)@ })
                &&& *final(tr) == *old(tr)
            },
            (old(self)@.send is None && old(self)@.term is None && input.enc_ok()) ==> {
                &&& final(self)@ == (StreamV {
                    id: ID {
                        stream: old(self)@.id.stream,
                        message: (old(self)@.id.message + 1) as u64,
                    },
                    buf: input.enc(),
                    ..old(self)@
                })
                &&& final(tr).tidy() == old(tr).tidy()
                &&& ((old(tr).failure() is None && old(tr).pending().len() + packet_bytes(
                    ID {
                        stream: old(self)@.id.stream,
                        message: (old(self)@.id.message + 1) as u64,
                    },
                    2,
                    input.enc(),
                ).len() < transport::WRITE_LIMIT) ==> {
                    &&& r is Ok
                    &&& final(tr).flushed() == old(tr).flushed()
                    &&& final(tr).avail() == old(tr).avail()
                    &&& final(tr).pending() == old(tr).pending() + packet_bytes(
                        ID {
                            stream: old(self)@.id.stream,
                            message: (old(self)@.id.message + 1) as u64,
                        },
                        2,
                        input.enc(),
                    )
                })
                &&& match r {
                    Ok(_) => {
                        &&& old(tr).failure() is None
                        &&& final(tr).failure() is None
                        &&& final(tr).sent() == old(tr).sent() + packet_bytes(
                            final(self)@.id,
                            2,
                            input.enc(),
                        )
                    },
                    Err(e) => e@ matches ErrorV::TransportError(te) && ((old(tr).failure() == Some(te) && *final(tr) == *old(tr)) || (te == transport::Error::IOError && final(tr).failure() == Some(transport::Error::IOError))),
                }
            },
    {
        match &self.send {
            Some(s) => {
                return Err(Error::StateError(dup_state(s)));
            },
            None => {},
        }
        match &self.term {
            Some(t) => {
                return Err(Error::StateError(dup_state(t)));
            },
            None => {},
        }
        match input.marshal(&mut self.buf) {
            Err(_) => {
                return Err(Error::EncodingError(enc::Error));
            },
            Ok(_) => {},
        }
        self.write_buf(tr, Kind::Message)
    }

    /// Announces that this side will send no further messages.  A second
    /// call, or one on a terminated stream, succeeds without touching the
    /// wire.
    pub fn close_send<W: Wire>(&mut self, tr: &mut Transport<W>) -> (r: Result<(), Error>)
        requires
            (old(self)@.send is None && old(self)@.term is None) ==> old(self)@.id.message
                < u64::MAX,
        ensures
            final(tr).reliable() == old(tr).reliable(),
            (old(tr).failure() is None && old(tr).reliable()) ==> r is Ok,
            (old(self)@.send is Some || old(self)@.term is Some) ==> {
                &&& r == Ok::<(), Error>(())
                &&& final(self)@ == old(self)@
                &&& *final(tr) == *old(tr)
            },
            (old(self)@.send is None && old(self)@.term is None) ==> {
                &&& final(self)@ == (StreamV {
                    id: ID {
                        stream: old(self)@.id.stream,
                        message: (old(self)@.id.message + 1) as u64,
                    },
                    buf: Seq::<u8>::empty(),
                    send: Some(StateV::SendClosed),
                    recv: old(self)@.recv,
                    term: if old(self)@.recv is Some {
                        Some(StateV::BothClosed)
                    } else {
                        None
                    },
                })
                &&& final(tr).tidy() == old(tr).tidy()
                &&& match r {
                    Ok(_) => {
                        &&& old(tr).failure() is None
                        &&& final(tr).failure() is None
                        &&& final(tr).sent() == old(tr).sent() + packet_bytes(
                            final(self)@.id,
                            6,
                            Seq::<u8>::empty(),
                        )
                        &&& final(tr).flushed() == final(tr).sent()
                    },
                    Err(e) => e@ matches ErrorV::TransportError(te) && ((old(tr).failure() == Some(te) && *final(tr) == *old(tr)) || (te == transport::Error::IOError && final(tr).failure() == Some(transport::Error::IOError))),
                }
            },
    {
        if self.send.is_some() || self.term.is_some() {
            return Ok(());
        }
        set_once(&mut self.send, State::SendClosed);
        self.terminate_if_both_closed();
        self.buf.clear();
        match self.write_buf(tr, Kind::CloseSend) {
            Ok(_) => {},
            Err(e) => {
                return Err(e);
            },
        }
        match tr.flush() {
            Ok(_) => Ok(()),
            Err(e) => Err(Error::TransportError(e)),
        }
    }

    /// Terminates the stream from this side with a Close packet.  A second
    /// call succeeds without touching the wire.
    pub fn close<W: Wire>(&mut self, tr: &mut Transport<W>) -> (r: Result<(), Error>)
        requires
            old(self)@.term is None ==> old(self)@.id.message < u64::MAX,
        ensures
            final(tr).reliable() == old(tr).reliable(),
            (old(tr).failure() is None && old(tr).reliable()) ==> r is Ok,
            old(self)@.term is Some ==> {
                &&& r == Ok::<(), Error>(())
                &&& final(self)@ == old(self)@
                &&& *final(tr) == *old(tr)
            },
            old(self)@.term is None ==> {
                &&& final(self)@ == (StreamV {
                    id: ID {
                        stream: old(self)@.id.stream,
                        message: (old(self)@.id.message + 1) as u64,
                    },
                    buf: Seq::<u8>::empty(),
                    send: old(self)@.send,
                    recv: old(self)@.recv,
                    term: Some(StateV::SentClose),
                })
                &&& final(tr).tidy() == old(tr).tidy()
                &&& match r {
                    Ok(_) => {
                        &&& old(tr).failure() is None
                        &&& final(tr).failure() is None
                        &&& final(tr).sent() == old(tr).sent() + packet_bytes(
                            final(self)@.id,
                            5,
                            Seq::<u8>::empty(),
                        )
                        &&& final(tr).flushed() == final(tr).sent()
                    },
                    Err(e) => e@ matches ErrorV::TransportError(te) && ((old(tr).failure() == Some(te) && *final(tr) == *old(tr)) || (te == transport::Error::IOError && final(tr).failure() == Some(transport::Error::IOError))),
                }
            },
    {
        if self.term.is_some() {
            return Ok(());
        }
        set_once(&mut self.term, State::TerminatedSentClose);
        self.buf.clear();
        match self.write_buf(tr, Kind::Close) {
            Ok(_) => {},
            Err(e) => {
                return Err(e);
            },
        }
        match tr.flush() {
            Ok(_) => Ok(()),
            Err(e) => Err(Error::TransportError(e)),
        }
    }

    /// Terminates the stream from this side with an Error packet carrying
    /// `code` big-endian and the message bytes.  A second call succeeds
    /// without touching the wire.
    pub fn error<W: Wire>(
        &mut self,
        tr: &mut Transport<W>,
        msg: &str,
        code: u64,
    ) -> (r: Result<(), Error>)
        requires
            old(self)@.term is None ==> old(self)@.id.message < u64::MAX,
        ensures
            final(tr).reliable() == old(tr).reliable(),
            (old(tr).failure() is None && old(tr).reliable()) ==> r is Ok,
            old(self)@.term is Some ==> {
                &&& r == Ok::<(), Error>(())
                &&& final(self)@ == old(self)@
                &&& *final(tr) == *old(tr)
            },
            old(self)@.term is None ==> {
                &&& final(self)@ == (StreamV {
                    id: ID {
                        stream: old(self)@.id.stream,
                        message: (old(self)@.id.message + 1) as u64,
                    },
                    buf: be_bytes(code) + msg.spec_bytes(),
                    send: set_once_v(old(self)@.send, StateV::Eof),
                    recv: old(self)@.recv,
                    term: Some(StateV::SentError),
                })
                &&& final(tr).tidy() == old(tr).tidy()
                &&& match r {
                    Ok(_) => {
                        &&& old(tr).failure() is None
                        &&& final(tr).failure() is None
                        &&& final(tr).sent() == old(tr).sent() + packet_bytes(
                            final(self)@.id,
                            3,
                            be_bytes(code) + msg.spec_bytes(),
                        )
                        &&& final(tr).flushed() == final(tr).sent()
                    },
                    Err(e) => e@ matches ErrorV::TransportError(te) && ((old(tr).failure() == Some(te) && *final(tr) == *old(tr)) || (te == transport::Error::IOError && final(tr).failure() == Some(transport::Error::IOError))),
                }
            },
    {
        if self.term.is_some() {
            return Ok(());
        }
        set_once(&mut self.send, State::EOF);
        set_once(&mut self.term, State::TerminatedSentError);
        self.buf.clear();
        self.buf.push((code >> 56) as u8);
        self.buf.push((code >> 48) as u8);
        self.buf.push((code >> 40) as u8);
        self.buf.push((code >> 32) as u8);
        self.buf.push((code >> 24) as u8);
        self.buf.push((code >> 16) as u8);
        self.buf.push((code >> 8) as u8);
        self.buf.push(code as u8);
        self.buf.extend_from_slice(msg.as_bytes());
        proof {
            assert(self.buf@ =~= be_bytes(code) + msg.spec_bytes());
        }
        match self.write_buf(tr, Kind::Error) {
            Ok(_) => {},
            Err(e) => {
                return Err(e);
            },
        }
        match tr.flush() {
            Ok(_) => Ok(()),
            Err(e) => Err(Error::TransportError(e)),
        }
    }

    /// Reads packets until one is a Message for this stream, leaving its
    /// payload in the scratch buffer, and drives the axes for everything
    /// else that arrives, exactly as `srecv` says.
    fn recv_buf<W: Wire>(&mut self, tr: &mut Transport<W>) -> (r: Result<(), Error>)
        requires
            old(tr).failure() is None,
        ensures
            final(tr).sent() == old(tr).sent(),
            final(tr).flushed() == old(tr).flushed(),
            final(tr).pending() == old(tr).pending(),
            final(tr).reliable() == old(tr).reliable(),
            old(tr).reliable() ==> !(r matches Err(e) && e@ == ErrorV::TransportError(
                transport::Error::IOError,
            )),
            final(self)@.id == old(self)@.id,
            old(self)@.send is Some ==> final(self)@.send == old(self)@.send,
            old(self)@.recv is Some ==> final(self)@.recv == old(self)@.recv,
            old(self)@.term is Some ==> final(self)@.term == old(self)@.term,
            match r {
                Ok(_) => {
                    &&& srecv(old(tr).avail(), blanked(old(self)@)) == (RecvOut::Delivered {
                        st: blanked(final(self)@),
                        data: final(self)@.buf,
                        rest: final(tr).avail(),
                    })
                    &&& final(tr).failure() is None
                    &&& (old(tr).tidy() ==> final(tr).tidy())
                },
                Err(e) => match e@ {
                    ErrorV::StateError(sv) => {
                        &&& srecv(old(tr).avail(), blanked(old(self)@)) == (RecvOut::Refused {
                            err: sv,
                            st: blanked(final(self)@),
                        })
                        &&& final(tr).failure() is None
                    },
                    ErrorV::TransportError(te) => {
                        &&& te != transport::Error::RemoteClosed
                        &&& (te == transport::Error::IOError ==> final(tr).failure() == Some(
                            transport::Error::IOError,
                        ))
                        &&& ((te != transport::Error::IOError && te
                            != transport::Error::DataOverflowError) ==> (srecv(
                            old(tr).avail(),
                            blanked(old(self)@),
                        ) == (RecvOut::Failed { err: te, st: blanked(final(self)@) }) && final(tr).failure() is None))
                        &&& (te == transport::Error::DataOverflowError ==> (srecv(
                            old(tr).avail(),
                            blanked(old(self)@),
                        ) == (RecvOut::Failed { err: te, st: blanked(final(self)@) })
                            || !transport::spans_fit(old(tr).avail()) || !old(tr).tidy()))
                    },
                    ErrorV::EncodingError => false,
                },
            },
    {
        loop
            invariant
                tr.failure() is None,
                tr.sent() == old(tr).sent(),
                tr.flushed() == old(tr).flushed(),
                tr.pending() == old(tr).pending(),
                tr.reliable() == old(tr).reliable(),
                self@.id == old(self)@.id,
                old(self)@.send is Some ==> self@.send == old(self)@.send,
                old(self)@.recv is Some ==> self@.recv == old(self)@.recv,
                old(self)@.term is Some ==> self@.term == old(self)@.term,
                old(tr).tidy() ==> tr.tidy(),
                transport::spans_fit(old(tr).avail()) ==> transport::spans_fit(tr.avail()),
                srecv(old(tr).avail(), blanked(old(self)@)) == srecv(tr.avail(), blanked(self@)),
            decreases tr.avail().len(),
        {
            match &self.term {
                Some(t) => {
                    return Err(Error::StateError(dup_state(t)));
                },
                None => {},
            }
            match &self.recv {
                Some(s) => {
                    return Err(Error::StateError(dup_state(s)));
                },
                None => {},
            }
            let ghost pre_avail = tr.avail();
            let ghost pre_view = self@;
            match tr.read_packet_into(&mut self.buf) {
                Ok((pid, pkind)) => {
                    proof {
                        transport::lemma_assemble_rest(
                            pre_avail,
                            ID { stream: 0, message: 0 },
                            0,
                            Seq::empty(),
                        );
                        if transport::spans_fit(pre_avail) {
                            transport::lemma_assemble_spans(
                                pre_avail,
                                ID { stream: 0, message: 0 },
                                0,
                                Seq::empty(),
                            );
                        }
                    }
                    if pid.stream != self.id.stream {
                        proof {
                            assert(blanked(self@) =~= blanked(pre_view));
                        }
                        continue ;
                    }
                    match pkind {
                        Kind::Message => {
                            proof {
                                assert(blanked(self@) =~= blanked(pre_view));
                            }
                            return Ok(());
                        },
                        Kind::Invoke => {
                            set_once(&mut self.term, State::InvalidInvoke);
                            proof {
                                assert(blanked(self@) =~= (StreamV {
                                    term: set_once_v(pre_view.term, StateV::InvalidInvoke),
                                    ..blanked(pre_view)
                                }));
                            }
                            continue ;
                        },
                        Kind::Error => {
                            set_once(&mut self.send, State::EOF);
                            let st = parse_remote_error(&self.buf);
                            set_once(&mut self.term, st);
                            proof {
                                assert(blanked(self@) =~= (StreamV {
                                    send: set_once_v(pre_view.send, StateV::Eof),
                                    term: set_once_v(
                                        pre_view.term,
                                        remote_error_of(self@.buf),
                                    ),
                                    ..blanked(pre_view)
                                }));
                            }
                            continue ;
                        },
                        Kind::Close => {
                            set_once(&mut self.recv, State::EOF);
                            set_once(&mut self.term, State::RemoteClosed);
                            proof {
                                assert(blanked(self@) =~= (StreamV {
                                    recv: set_once_v(pre_view.recv, StateV::Eof),
                                    term: set_once_v(pre_view.term, StateV::RemoteClosed),
                                    ..blanked(pre_view)
                                }));
                            }
                            return Err(Error::StateError(State::RemoteClosed));
                        },
                        Kind::CloseSend => {
                            set_once(&mut self.recv, State::EOF);
                            self.terminate_if_both_closed();
                            proof {
                                assert(blanked(self@) =~= (StreamV {
                                    recv: set_once_v(pre_view.recv, StateV::Eof),
                                    term: if pre_view.send is Some {
                                        set_once_v(pre_view.term, StateV::BothClosed)
                                    } else {
                                        pre_view.term
                                    },
                                    ..blanked(pre_view)
                                }));
                            }
                            if self.send.is_some() {
                                return Err(Error::StateError(State::TerminatedBothClosed));
                            } else {
                                return Err(Error::StateError(State::EOF));
                            }
                        },
                        k => {
                            set_once(&mut self.term, State::UnknownPacketKind(k));
                            proof {
                                assert(blanked(self@) =~= (StreamV {
                                    term: set_once_v(pre_view.term, StateV::Unknown(k)),
                                    ..blanked(pre_view)
                                }));
                            }
                            continue ;
                        },
                    }
                },
                Err(transport::Error::RemoteClosed) => {
                    set_once(&mut self.recv, State::EOF);
                    set_once(&mut self.term, State::RemoteClosed);
                    proof {
                        assert(blanked(self@) =~= (StreamV {
                            recv: set_once_v(pre_view.recv, StateV::Eof),
                            term: set_once_v(pre_view.term, StateV::RemoteClosed),
                            ..blanked(pre_view)
                        }));
                    }
                    return Err(Error::StateError(State::RemoteClosed));
                },
                Err(e) => {
                    proof {
                        assert(blanked(self@) =~= blanked(pre_view));
                    }
                    return Err(Error::TransportError(e));
                },
            }
        }
    }

    /// Receives the next message for this stream into `out`.  Pending
    /// outgoing bytes are flushed first so the peer has seen everything
    /// this side wrote.
    pub fn recv_into<W: Wire, Out: enc::Unmarshal>(
        &mut self,
        tr: &mut Transport<W>,
        out: &mut Out,
    ) -> (r: Result<(), Error>)
        ensures
            old(self)@.term matches Some(t) ==> {
                &&& r matches Err(e) && e@ == ErrorV::StateError(t)
                &&& final(self)@ == old(self)@
                &&& *final(tr) == *old(tr)
                &&& *final(out) == *old(out)
            },
            old(self)@.term is None ==> (old(self)@.recv matches Some(v) ==> {
                &&& r matches Err(e) && e@ == ErrorV::StateError(v)
                &&& final(self)@ == old(self)@
                &&& *final(tr) == *old(tr)
                &&& *final(out) == *old(out)
            }),
            final(tr).reliable() == old(tr).reliable(),
            (old(self)@.term is None && old(self)@.recv is None) ==> {
                &&& final(self)@.id == old(self)@.id
                &&& (old(self)@.send is Some ==> final(self)@.send == old(self)@.send)
                &&& ((old(tr).failure() is None && old(tr).reliable()) ==> !(r matches Err(e)
                    && e@ == ErrorV::TransportError(transport::Error::IOError)))
                &&& (old(tr).failure() is None ==> match r {
                    Ok(_) => {
                        &&& final(tr).sent() == old(tr).sent()
                        &&& final(tr).flushed() == old(tr).sent()
                        &&& final(tr).failure() is None
                        &&& Out::dec_ok(final(self)@.buf)
                        &&& Out::decodes(final(self)@.buf, *final(out))
                        &&& exists|a: Seq<u8>|
                            srecv(a, blanked(old(self)@)) == (RecvOut::Delivered {
                                st: blanked(final(self)@),
                                data: final(self)@.buf,
                                rest: final(tr).avail(),
                            })
                    },
                    Err(e) => match e@ {
                        ErrorV::StateError(sv) => exists|a: Seq<u8>|
                            srecv(a, blanked(old(self)@)) == (RecvOut::Refused {
                                err: sv,
                                st: blanked(final(self)@),
                            }),
                        ErrorV::EncodingError => exists|a: Seq<u8>|
                            srecv(a, blanked(old(self)@)) == (RecvOut::Delivered {
                                st: blanked(final(self)@),
                                data: final(self)@.buf,
                                rest: final(tr).avail(),
                            }) && !Out::dec_ok(final(self)@.buf),
                        ErrorV::TransportError(te) => true,
                    },
                })
                &&& (old(tr).failure() matches Some(fe) ==> {
                    &&& r matches Err(e) && e@ == ErrorV::TransportError(fe)
                    &&& *final(tr) == *old(tr)
                    &&& final(self)@ == old(self)@
                    &&& *final(out) == *old(out)
                })
                &&& ((old(tr).failure() is None && old(tr).sent() == old(tr).flushed()) ==> match r {
                    Ok(_) => {
                        &&& srecv(old(tr).avail(), blanked(old(self)@)) == (RecvOut::Delivered {
                            st: blanked(final(self)@),
                            data: final(self)@.buf,
                            rest: final(tr).avail(),
                        })
                        &&& Out::dec_ok(final(self)@.buf)
                        &&& Out::decodes(final(self)@.buf, *final(out))
                        &&& final(tr).failure() is None
                    },
                    Err(e) => match e@ {
                        ErrorV::StateError(sv) => srecv(old(tr).avail(), blanked(old(self)@))
                            == (RecvOut::Refused { err: sv, st: blanked(final(self)@) }),
                        ErrorV::TransportError(te) => {
                            &&& te != transport::Error::RemoteClosed
                            &&& (te == transport::Error::IOError ==> final(tr).failure() == Some(
                                transport::Error::IOError,
                            ))
                            &&& ((te != transport::Error::IOError && te
                                != transport::Error::DataOverflowError) ==> srecv(
                                old(tr).avail(),
                                blanked(old(self)@),
                            ) == (RecvOut::Failed { err: te, st: blanked(final(self)@) }))
                            &&& (te == transport::Error::DataOverflowError ==> (srecv(
                                old(tr).avail(),
                                blanked(old(self)@),
                            ) == (RecvOut::Failed { err: te, st: blanked(final(self)@) })
                                || !transport::spans_fit(old(tr).avail()) || !old(tr).tidy()))
                        },
                        ErrorV::EncodingError => {
                            &&& srecv(old(tr).avail(), blanked(old(self)@))
                                == (RecvOut::Delivered {
                                st: blanked(final(self)@),
                                data: final(self)@.buf,
                                rest: final(tr).avail(),
                            })
                            &&& !Out::dec_ok(final(self)@.buf)
                        },
                    },
                })
            },
    {
        match &self.term {
            Some(t) => {
                return Err(Error::StateError(dup_state(t)));
            },
            None => {},
        }
        match &self.recv {
            Some(s) => {
                return Err(Error::StateError(dup_state(s)));
            },
            None => {},
        }
        match tr.flush() {
            Ok(_) => {},
            Err(e) => {
                return Err(Error::TransportError(e));
            },
        }
        match self.recv_buf(tr) {
            Ok(_) => {},
            Err(e) => {
                return Err(e);
            },
        }
        match out.unmarshal(self.buf.as_slice()) {
            Ok(_) => Ok(()),
            Err(_) => Err(Error::EncodingError(enc::Error)),
        }
    }

    /// Marks the whole stream terminated when both directions are closed.
    pub fn terminate_if_both_closed(&mut self)
        ensures
            final(self)@ == (StreamV {
                term: if old(self)@.send is Some && old(self)@.recv is Some {
                    set_once_v(old(self)@.term, StateV::BothClosed)
                } else {
                    old(self)@.term
                },
                ..old(self)@
            }),
    {
        if self.send.is_some() && self.recv.is_some() {
            set_once(&mut self.term, State::TerminatedBothClosed);
        }
        proof {
            assert(self@ =~= (StreamV {
                term: if old(self)@.send is Some && old(self)@.recv is Some {
                    set_once_v(old(self)@.term, StateV::BothClosed)
                } else {
                    old(self)@.term
                },
                ..old(self)@
            }));
        }
    }
}

} // verus!
