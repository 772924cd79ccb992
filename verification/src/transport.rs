//! The buffered transport: wraps a duplex byte channel with a write batch
//! buffer and a read reassembly buffer, turning frames into packets on the
//! way in and batching frames on the way out.

use vstd::prelude::*;
use crate::frame;
use crate::frame::Frame;
use crate::id::ID;
use crate::id::id_lt;
use crate::packet::Kind;
use crate::packet::kind_of;
use crate::wire::Wire;

verus! {

/// Why a transport operation failed.
#[derive(Debug, PartialEq, Eq, Structural, Clone, Copy)]
pub enum Error {
    /// The remote side closed the channel.
    RemoteClosed,
    /// An incoming frame was malformed beyond repair.
    ParseError,
    /// An incoming frame's identifier went backwards.
    IDMonotonicityError,
    /// An incoming frame changed kind in the middle of a packet.
    PacketKindChangeError,
    /// An incoming packet, or the read buffer, outgrew its cap.
    DataOverflowError,
    /// The underlying channel failed; the transport is poisoned.
    IOError,
}

/// Greatest payload a packet may carry.
pub const MAX_PACKET: usize = 4 * 1024 * 1024;

/// Greatest size the read buffer may reach while a frame is incomplete: the
/// packet cap plus a frame header's worth of slack.
pub const RBUF_CAP: usize = 4 * 1024 * 1024 + 28;

/// Size of one bulk read from the channel.
pub const READ_CHUNK: usize = 4096;

/// Write buffer length at which a write flushes on its own.
pub const WRITE_LIMIT: usize = 64 * 1024;

/// Largest whole-frame size sure to fit the read buffer whatever the
/// channel's chunking: the buffer can overshoot a frame by almost one chunk.
pub open spec fn span_limit() -> int {
    RBUF_CAP - READ_CHUNK + 1
}

/// What reassembling one packet from the byte stream `s` comes to, starting
/// from current identifier `cur`, kind code `kc` and accumulated payload
/// `acc`.
pub ghost enum Assembled {
    /// A whole packet: its identifier, kind code, payload, and the bytes of
    /// `s` left over after it.
    Packet { id: ID, kc: u8, data: Seq<u8>, rest: Seq<u8> },
    /// A frame's identifier went backwards.
    Monotonicity,
    /// A frame changed kind in the middle of a packet.
    KindChange,
    /// The payload outgrew the packet cap, or a frame outgrew the read
    /// buffer.
    Overflow,
    /// A frame was malformed beyond repair.
    Malformed,
    /// The stream ends before the packet does.
    Closed,
}

/// The reassembly loop as a function of the byte stream.  Mirrors, frame by
/// frame, what a reader does: skip control frames, adopt a larger
/// identifier, refuse a smaller one, refuse a changed kind, accumulate
/// payload, stop at a done frame.
pub open spec fn assemble_from(s: Seq<u8>, cur: ID, kc: u8, acc: Seq<u8>) -> Assembled
    decreases s.len(),
{
    match frame::parse_spec(s) {
        Err(frame::Error::NotEnoughData) => if s.len() > RBUF_CAP as int {
            Assembled::Overflow
        } else {
            Assembled::Closed
        },
        Err(frame::Error::ParseError) => Assembled::Malformed,
        Ok(pf) => if !(0 < pf.used <= s.len()) {
            // Unreachable: a parsed frame always occupies at least one byte
            // and at most the buffer.
            Assembled::Malformed
        } else {
            let rest = s.skip(pf.used);
            let f = pf.frame;
            if f.control {
                assemble_from(rest, cur, kc, acc)
            } else if id_lt(f.id, cur) {
                Assembled::Monotonicity
            } else if id_lt(cur, f.id) {
                if f.data.len() > MAX_PACKET as int {
                    Assembled::Overflow
                } else if f.done {
                    Assembled::Packet { id: f.id, kc: f.kind, data: f.data, rest }
                } else {
                    assemble_from(rest, f.id, f.kind, f.data)
                }
            } else if kc != f.kind {
                Assembled::KindChange
            } else {
                if acc.len() + f.data.len() > MAX_PACKET as int {
                    Assembled::Overflow
                } else if f.done {
                    Assembled::Packet { id: cur, kc, data: acc + f.data, rest }
                } else {
                    assemble_from(rest, cur, kc, acc + f.data)
                }
            }
        },
    }
}

/// Takes `n` bytes off the front of `v`.
fn drain_front(v: &mut Vec<u8>, n: usize)
    requires
        n <= old(v)@.len(),
    ensures
        final(v)@ == old(v)@.skip(n as int),
{
    let tail = v.split_off(n);
    *v = tail;
}

/// One reassembly step keeps the rest of the stream within frame bounds.
proof fn lemma_spans_fit_step(s: Seq<u8>)
    ensures
        spans_fit(s) ==> match frame::parse_spec(s) {
            Ok(pf) => (0 < pf.used <= s.len()) ==> spans_fit(s.skip(pf.used)),
            Err(e) => true,
        },
{
}

/// When the read buffer outgrows its cap around an incomplete frame, the
/// stream either reassembles to an overflow or holds a frame too large for
/// the buffer.
proof fn lemma_cap_overflow(rbuf_pre: Seq<u8>, cur: Seq<u8>, id: ID, kc: u8, acc: Seq<u8>)
    requires
        frame::parse_spec(rbuf_pre) == Err::<frame::ParsedFrame, frame::Error>(
            frame::Error::NotEnoughData,
        ),
        rbuf_pre.len() > RBUF_CAP - READ_CHUNK,
        rbuf_pre.len() <= cur.len(),
        rbuf_pre == cur.take(rbuf_pre.len() as int),
        cur.len() > RBUF_CAP as int,
    ensures
        assemble_from(cur, id, kc, acc) == Assembled::Overflow || !spans_fit(cur),
{
    assert(rbuf_pre.len() >= 31);
    frame::lemma_parse_stable(rbuf_pre, cur);
    frame::lemma_parse_used_min(cur);
    match frame::parse_spec(cur) {
        Ok(pf) => {
            assert(pf.used > rbuf_pre.len());
            assert(pf.used > span_limit());
            assert(!spans_fit(cur));
        },
        Err(e) => {
            assert(e == frame::Error::NotEnoughData);
            assert(assemble_from(cur, id, kc, acc) == Assembled::Overflow);
        },
    }
}

/// What reassembling one packet from the start of stream `s` comes to.  The
/// reader starts from identifier zero and kind code zero.
pub open spec fn assemble(s: Seq<u8>) -> Assembled {
    assemble_from(s, ID { stream: 0, message: 0 }, 0, Seq::empty())
}

/// Whether every frame the stream `s` holds fits the read buffer with room
/// to spare, so that reassembly is never cut short by the buffer cap.
pub open spec fn spans_fit(s: Seq<u8>) -> bool
    decreases s.len(),
{
    match frame::parse_spec(s) {
        Ok(pf) => !(0 < pf.used <= s.len()) || (pf.used <= span_limit() && spans_fit(
            s.skip(pf.used),
        )),
        Err(e) => true,
    }
}

/// A reassembled packet never reaches to the end of the stream it came
/// from: at least its own frames precede the leftover.
pub proof fn lemma_assemble_rest(s: Seq<u8>, cur: ID, kc: u8, acc: Seq<u8>)
    ensures
        assemble_from(s, cur, kc, acc) matches Assembled::Packet { rest, .. } ==> rest.len()
            < s.len(),
    decreases s.len(),
{
    match frame::parse_spec(s) {
        Ok(pf) => {
            if 0 < pf.used <= s.len() {
                let rest = s.skip(pf.used);
                let f = pf.frame;
                if f.control {
                    lemma_assemble_rest(rest, cur, kc, acc);
                } else if id_lt(cur, f.id) {
                    lemma_assemble_rest(rest, f.id, f.kind, f.data);
                } else if !id_lt(f.id, cur) && kc == f.kind {
                    lemma_assemble_rest(rest, cur, kc, acc + f.data);
                }
            }
        },
        Err(e) => {},
    }
}

/// Reassembling a packet off a stream whose frames all fit the read buffer
/// leaves a stream whose frames all fit the read buffer.
pub proof fn lemma_assemble_spans(s: Seq<u8>, cur: ID, kc: u8, acc: Seq<u8>)
    requires
        spans_fit(s),
    ensures
        assemble_from(s, cur, kc, acc) matches Assembled::Packet { rest, .. } ==> spans_fit(rest),
    decreases s.len(),
{
    match frame::parse_spec(s) {
        Ok(pf) => {
            if 0 < pf.used <= s.len() {
                let rest = s.skip(pf.used);
                let f = pf.frame;
                if f.control {
                    lemma_assemble_spans(rest, cur, kc, acc);
                } else if id_lt(cur, f.id) {
                    lemma_assemble_spans(rest, f.id, f.kind, f.data);
                } else if !id_lt(f.id, cur) && kc == f.kind {
                    lemma_assemble_spans(rest, cur, kc, acc + f.data);
                }
            }
        },
        Err(e) => {},
    }
}

/// The serializations of a sequence of frames, concatenated in order.
pub open spec fn frames_bytes(fs: Seq<frame::FrameV>) -> Seq<u8>
    decreases fs.len(),
{
    if fs.len() == 0 {
        Seq::empty()
    } else {
        frame::frame_bytes(fs[0]) + frames_bytes(fs.skip(1))
    }
}

/// The payloads of a sequence of frames, concatenated in order.
pub open spec fn frames_data(fs: Seq<frame::FrameV>) -> Seq<u8>
    decreases fs.len(),
{
    if fs.len() == 0 {
        Seq::empty()
    } else {
        fs[0].data + frames_data(fs.skip(1))
    }
}

/// Law: a byte stream that is exactly the serializations of consecutive
/// frames sharing one identifier and kind, none marked control, only the
/// last marked done, reassembles to the one packet whose payload is their
/// payloads concatenated.  The identifier must be above the reader's
/// starting point, the total payload within the packet cap, and each frame
/// small enough for the read buffer.
pub proof fn lemma_reassembly(fs: Seq<frame::FrameV>, id: ID, kc: u8, extra: Seq<u8>)
    requires
        fs.len() >= 1,
        forall|i: int|
            0 <= i < fs.len() ==> {
                let f = #[trigger] fs[i];
                &&& f.id == id
                &&& f.kind == kc
                &&& !f.control
                &&& frame::wf_frame(f)
                &&& (f.done <==> i == fs.len() - 1)
                &&& frame::frame_bytes(f).len() <= span_limit()
            },
        id_lt(ID { stream: 0, message: 0 }, id),
        frames_data(fs).len() <= MAX_PACKET as int,
    ensures
        assemble(frames_bytes(fs) + extra) == (Assembled::Packet {
            id,
            kc,
            data: frames_data(fs),
            rest: extra,
        }),
        spans_fit(extra) ==> spans_fit(frames_bytes(fs) + extra),
{
    lemma_frames_data_first(fs);
    let f0 = fs[0];
    let tail = fs.skip(1);
    frame::lemma_frame_roundtrip(f0, frames_bytes(tail) + extra);
    let s = frames_bytes(fs) + extra;
    let used = frame::frame_bytes(f0).len() as int;
    assert(s =~= frame::frame_bytes(f0) + (frames_bytes(tail) + extra));
    assert(s.skip(used) =~= frames_bytes(tail) + extra);
    assert(!id_lt(f0.id, ID { stream: 0, message: 0 }));
    if fs.len() == 1 {
        assert(tail.len() == 0);
        assert(s.skip(used) =~= extra);
        assert(frames_data(fs) =~= f0.data);
    } else {
        lemma_reassembly_append(tail, id, kc, f0.data, extra);
        assert(frames_data(fs) == f0.data + frames_data(tail));
    }
}

/// The inductive step of the reassembly law: with the packet already
/// adopted and `acc` accumulated, the remaining frames finish it.
proof fn lemma_reassembly_append(fs: Seq<frame::FrameV>, id: ID, kc: u8, acc: Seq<u8>, extra: Seq<u8>)
    requires
        fs.len() >= 1,
        forall|i: int|
            0 <= i < fs.len() ==> {
                let f = #[trigger] fs[i];
                &&& f.id == id
                &&& f.kind == kc
                &&& !f.control
                &&& frame::wf_frame(f)
                &&& (f.done <==> i == fs.len() - 1)
                &&& frame::frame_bytes(f).len() <= span_limit()
            },
        acc.len() + frames_data(fs).len() <= MAX_PACKET as int,
    ensures
        assemble_from(frames_bytes(fs) + extra, id, kc, acc) == (Assembled::Packet {
            id,
            kc,
            data: acc + frames_data(fs),
            rest: extra,
        }),
        spans_fit(extra) ==> spans_fit(frames_bytes(fs) + extra),
    decreases fs.len(),
{
    lemma_frames_data_first(fs);
    let f0 = fs[0];
    let tail = fs.skip(1);
    frame::lemma_frame_roundtrip(f0, frames_bytes(tail) + extra);
    let s = frames_bytes(fs) + extra;
    let used = frame::frame_bytes(f0).len() as int;
    assert(s =~= frame::frame_bytes(f0) + (frames_bytes(tail) + extra));
    assert(s.skip(used) =~= frames_bytes(tail) + extra);
    assert(!id_lt(id, id) && !id_lt(f0.id, id));
    if fs.len() == 1 {
        assert(s.skip(used) =~= extra);
        assert(frames_data(fs) =~= f0.data);
    } else {
        lemma_reassembly_append(tail, id, kc, acc + f0.data, extra);
        assert(frames_data(fs) == f0.data + frames_data(tail));
        assert(acc + (f0.data + frames_data(tail)) =~= (acc + f0.data) + frames_data(tail));
    }
}

/// The payload of the first frame is a prefix of the concatenated
/// payloads, so it obeys the same length bound.
proof fn lemma_frames_data_first(fs: Seq<frame::FrameV>)
    requires
        fs.len() >= 1,
    ensures
        frames_data(fs) == fs[0].data + frames_data(fs.skip(1)),
        frames_data(fs).len() >= fs[0].data.len(),
{
}

/// Law: a frame whose identifier goes backwards from the one before it is
/// refused as a monotonicity violation, wherever the first packet has not
/// yet completed.
pub proof fn lemma_monotonicity_refused(f1: frame::FrameV, f2: frame::FrameV, tail: Seq<u8>)
    requires
        frame::wf_frame(f1),
        frame::wf_frame(f2),
        !f1.control,
        !f1.done,
        !f2.control,
        f1.data.len() <= MAX_PACKET as int,
        id_lt(ID { stream: 0, message: 0 }, f1.id),
        id_lt(f2.id, f1.id),
    ensures
        assemble(frame::frame_bytes(f1) + frame::frame_bytes(f2) + tail)
            == Assembled::Monotonicity,
{
    let rest = frame::frame_bytes(f2) + tail;
    frame::lemma_frame_roundtrip(f1, rest);
    let s = frame::frame_bytes(f1) + frame::frame_bytes(f2) + tail;
    assert(s =~= frame::frame_bytes(f1) + rest);
    let u1 = frame::frame_bytes(f1).len() as int;
    assert(s.skip(u1) =~= rest);
    frame::lemma_parse_used_min(s);
    assert(assemble(s) == assemble_from(rest, f1.id, f1.kind, f1.data));
    frame::lemma_frame_roundtrip(f2, tail);
    frame::lemma_parse_used_min(rest);
    assert(assemble_from(rest, f1.id, f1.kind, f1.data) == Assembled::Monotonicity);
}

/// Law: a frame that keeps the identifier of the one before it but changes
/// its kind is refused as a kind change, wherever the first packet has not
/// yet completed.
pub proof fn lemma_kind_change_refused(f1: frame::FrameV, f2: frame::FrameV, tail: Seq<u8>)
    requires
        frame::wf_frame(f1),
        frame::wf_frame(f2),
        !f1.control,
        !f1.done,
        !f2.control,
        f1.data.len() <= MAX_PACKET as int,
        id_lt(ID { stream: 0, message: 0 }, f1.id),
        f2.id == f1.id,
        f2.kind != f1.kind,
    ensures
        assemble(frame::frame_bytes(f1) + frame::frame_bytes(f2) + tail) == Assembled::KindChange,
{
    let rest = frame::frame_bytes(f2) + tail;
    frame::lemma_frame_roundtrip(f1, rest);
    let s = frame::frame_bytes(f1) + frame::frame_bytes(f2) + tail;
    assert(s =~= frame::frame_bytes(f1) + rest);
    let u1 = frame::frame_bytes(f1).len() as int;
    assert(s.skip(u1) =~= rest);
    frame::lemma_parse_used_min(s);
    assert(assemble(s) == assemble_from(rest, f1.id, f1.kind, f1.data));
    frame::lemma_frame_roundtrip(f2, tail);
    let u2 = frame::frame_bytes(f2).len() as int;
    assert(rest.skip(u2) =~= tail);
    frame::lemma_parse_used_min(rest);
    assert(assemble_from(rest, f1.id, f1.kind, f1.data) == Assembled::KindChange);
}

/// Law: a frame with the control bit set is consumed and skipped entirely;
/// reassembly of what follows is unchanged.
pub proof fn lemma_control_skipped(f: frame::FrameV, s: Seq<u8>, cur: ID, kc: u8, acc: Seq<u8>)
    requires
        frame::wf_frame(f),
        f.control,
    ensures
        assemble_from(frame::frame_bytes(f) + s, cur, kc, acc) == assemble_from(s, cur, kc, acc),
{
    frame::lemma_frame_roundtrip(f, s);
    let w = frame::frame_bytes(f) + s;
    let u = frame::frame_bytes(f).len() as int;
    assert(w.skip(u) =~= s);
    frame::lemma_parse_used_min(w);
}

/// Law: frames of one packet whose payloads add up past the packet cap are
/// refused as an overflow.
pub proof fn lemma_overflow_refused(fs: Seq<frame::FrameV>, id: ID, kc: u8, tail: Seq<u8>)
    requires
        fs.len() >= 1,
        forall|i: int|
            0 <= i < fs.len() ==> {
                let f = #[trigger] fs[i];
                &&& f.id == id
                &&& f.kind == kc
                &&& !f.control
                &&& !f.done
                &&& frame::wf_frame(f)
            },
        id_lt(ID { stream: 0, message: 0 }, id),
        frames_data(fs).len() > MAX_PACKET as int,
    ensures
        assemble(frames_bytes(fs) + tail) == Assembled::Overflow,
{
    lemma_frames_data_first(fs);
    let f0 = fs[0];
    let rest_fs = fs.skip(1);
    frame::lemma_frame_roundtrip(f0, frames_bytes(rest_fs) + tail);
    let s = frames_bytes(fs) + tail;
    let u0 = frame::frame_bytes(f0).len() as int;
    assert(s =~= frame::frame_bytes(f0) + (frames_bytes(rest_fs) + tail));
    assert(s.skip(u0) =~= frames_bytes(rest_fs) + tail);
    frame::lemma_parse_used_min(s);
    assert(!id_lt(f0.id, ID { stream: 0, message: 0 }));
    if f0.data.len() > MAX_PACKET as int {
        assert(assemble(s) == Assembled::Overflow);
    } else {
        assert(rest_fs.len() >= 1) by {
            if rest_fs.len() == 0 {
                assert(frames_data(rest_fs).len() == 0);
            }
        }
        lemma_overflow_refused_from(rest_fs, id, kc, f0.data, tail);
        assert(assemble(s) == assemble_from(frames_bytes(rest_fs) + tail, f0.id, f0.kind, f0.data));
    }
}

/// The inductive step of the overflow law: with `acc` already accumulated,
/// the remaining frames push the payload past the cap.
#[verifier::rlimit(80)]
proof fn lemma_overflow_refused_from(
    fs: Seq<frame::FrameV>,
    id: ID,
    kc: u8,
    acc: Seq<u8>,
    tail: Seq<u8>,
)
    requires
        fs.len() >= 1,
        forall|i: int|
            0 <= i < fs.len() ==> {
                let f = #[trigger] fs[i];
                &&& f.id == id
                &&& f.kind == kc
                &&& !f.control
                &&& !f.done
                &&& frame::wf_frame(f)
            },
        id_lt(ID { stream: 0, message: 0 }, id),
        acc.len() + frames_data(fs).len() > MAX_PACKET as int,
        acc.len() <= MAX_PACKET as int,
    ensures
        assemble_from(frames_bytes(fs) + tail, id, kc, acc) == Assembled::Overflow,
    decreases fs.len(),
{
    lemma_frames_data_first(fs);
    let f0 = fs[0];
    let rest_fs = fs.skip(1);
    frame::lemma_frame_roundtrip(f0, frames_bytes(rest_fs) + tail);
    let s = frames_bytes(fs) + tail;
    let u0 = frame::frame_bytes(f0).len() as int;
    assert(s =~= frame::frame_bytes(f0) + (frames_bytes(rest_fs) + tail));
    assert(s.skip(u0) =~= frames_bytes(rest_fs) + tail);
    frame::lemma_parse_used_min(s);
    assert(!id_lt(f0.id, id) && !id_lt(id, f0.id));
    if acc.len() + f0.data.len() > MAX_PACKET as int {
        assert(assemble_from(s, id, kc, acc) == Assembled::Overflow);
    } else {
        assert(rest_fs.len() >= 1) by {
            if rest_fs.len() == 0 {
                assert(frames_data(rest_fs).len() == 0);
            }
        }
        lemma_overflow_refused_from(rest_fs, id, kc, acc + f0.data, tail);
        assert(assemble_from(s, id, kc, acc) == assemble_from(
            frames_bytes(rest_fs) + tail,
            id,
            kc,
            acc + f0.data,
        ));
    }
}

/// A duplex channel wrapped with a write batch buffer and a read
/// reassembly buffer.  After the first channel fault every operation
/// returns that fault without further I/O.
pub struct Transport<W: Wire> {
    w: W,
    wbuf: Vec<u8>,
    rbuf: Vec<u8>,
    err: Option<Error>,
}

impl<W: Wire> Transport<W> {
    /// The fault this transport is poisoned with, if any.
    pub closed spec fn failure(&self) -> Option<Error> {
        self.err
    }

    /// Every byte accepted for sending so far, whether still batched here
    /// or already handed to the channel.
    pub closed spec fn sent(&self) -> Seq<u8> {
        self.w.outq() + self.wbuf@
    }

    /// Every byte already handed to the channel.
    pub closed spec fn flushed(&self) -> Seq<u8> {
        self.w.outq()
    }

    /// The incoming bytes not yet delivered as packets: what the
    /// reassembly buffer holds, then what the channel will deliver.
    pub closed spec fn avail(&self) -> Seq<u8> {
        self.rbuf@ + self.w.inq()
    }

    /// Whether the reassembly buffer is within its cap.  Holds from
    /// construction on and is preserved by every operation that does not
    /// report an overflow.
    pub closed spec fn tidy(&self) -> bool {
        self.rbuf@.len() <= RBUF_CAP as int
    }

    /// The wrapped channel end, as a value for specification.
    pub closed spec fn wv(&self) -> W {
        self.w
    }

    /// The bytes accepted for sending but not yet handed to the channel.
    pub closed spec fn pending(&self) -> Seq<u8> {
        self.wbuf@
    }

    /// Whether the channel under this transport never faults.  Success
    /// clauses below rest on it.
    pub closed spec fn reliable(&self) -> bool {
        self.w.reliable()
    }

    /// The incoming bytes already pulled off the channel but not yet
    /// delivered as packets.
    pub closed spec fn buffered(&self) -> Seq<u8> {
        self.rbuf@
    }

    /// The channel end under this transport.
    pub fn wire(&mut self) -> (r: &mut W)
        ensures
            *r == old(self).wv(),
            final(self).wv() == *final(r),
            final(self).failure() == old(self).failure(),
            final(self).pending() == old(self).pending(),
            final(self).buffered() == old(self).buffered(),
    {
        &mut self.w
    }

    /// What was accepted is what was handed on, then what is still
    /// batched.
    pub proof fn lemma_sent_split(&self)
        ensures
            self.sent() == self.flushed() + self.pending(),
    {
    }

    /// Wraps one end of a duplex channel.
    pub fn new(w: W) -> (t: Transport<W>)
        ensures
            t.failure() is None,
            t.sent() == w.outq(),
            t.flushed() == w.outq(),
            t.avail() == w.inq(),
            t.pending() == Seq::<u8>::empty(),
            t.reliable() == w.reliable(),
            t.tidy(),
    {
        let t = Transport { w, wbuf: Vec::new(), rbuf: Vec::new(), err: None };
        proof {
            assert(t.sent() =~= t.w.outq());
            assert(t.avail() =~= t.w.inq());
        }
        t
    }

    /// Appends the serialization of `fr` to the write buffer, flushing when
    /// the buffer has grown past its limit.
    pub fn write_frame(&mut self, fr: &Frame) -> (r: Result<(), Error>)
        ensures
            final(self).tidy() == old(self).tidy(),
            final(self).reliable() == old(self).reliable(),
            (old(self).failure() is None && old(self).reliable()) ==> r is Ok,
            (old(self).failure() is None && old(self).pending().len() + frame::frame_bytes(
                fr@,
            ).len() < WRITE_LIMIT) ==> {
                &&& r is Ok
                &&& final(self).pending() == old(self).pending() + frame::frame_bytes(fr@)
                &&& final(self).flushed() == old(self).flushed()
                &&& final(self).avail() == old(self).avail()
            },
            match old(self).failure() {
                Some(e) => r == Err::<(), Error>(e) && *final(self) == *old(self),
                None => match r {
                    Ok(_) => {
                        &&& final(self).sent() == old(self).sent() + frame::frame_bytes(fr@)
                        &&& final(self).failure() is None
                        &&& final(self).pending().len() < WRITE_LIMIT || final(self).flushed()
                            == final(self).sent()
                        &&& old(self).pending().len() + frame::frame_bytes(fr@).len()
                            >= WRITE_LIMIT ==> final(self).pending() == Seq::<u8>::empty()
                            && final(self).flushed() == final(self).sent()
                    },
                    Err(e) => e == Error::IOError && final(self).failure() == Some(Error::IOError),
                },
            },
    {
        match self.err {
            Some(e) => {
                return Err(e);
            },
            None => {},
        }
        frame::append_frame(&mut self.wbuf, fr);
        proof {
            assert(self.sent() =~= old(self).sent() + frame::frame_bytes(fr@));
            assert(self.avail() == old(self).avail());
        }
        if self.wbuf.len() >= WRITE_LIMIT {
            match self.flush_inner() {
                Ok(_) => {},
                Err(e) => {
                    return Err(e);
                },
            }
        }
        Ok(())
    }

    /// Hands the whole write buffer to the channel and empties it.  On a
    /// channel fault the buffer is dropped and the transport is poisoned.
    pub fn flush(&mut self) -> (r: Result<(), Error>)
        ensures
            final(self).tidy() == old(self).tidy(),
            final(self).reliable() == old(self).reliable(),
            (old(self).failure() is None && old(self).reliable()) ==> r is Ok,
            (old(self).failure() is None && old(self).sent() == old(self).flushed()) ==> *final(self) == *old(self),
            old(self).failure() is None ==> final(self).pending() == Seq::<u8>::empty(),
            match old(self).failure() {
                Some(e) => r == Err::<(), Error>(e) && *final(self) == *old(self),
                None => match r {
                    Ok(_) => {
                        &&& final(self).sent() == old(self).sent()
                        &&& final(self).flushed() == old(self).sent()
                        &&& final(self).failure() is None
                    },
                    Err(e) => e == Error::IOError && final(self).failure() == Some(Error::IOError),
                },
            },
    {
        match self.err {
            Some(e) => {
                return Err(e);
            },
            None => {},
        }
        self.flush_inner()
    }

    /// Reads whole frames from the channel, reassembling them into one
    /// packet in `out`, and returns the packet's identifier and kind.
    ///
    /// On success the result is exactly what `assemble` says of the bytes
    /// that were available; each failure is returned only where `assemble`
    /// classifies those bytes the same way, except that an overflow may
    /// also reflect a single frame too large for the read buffer, and a
    /// channel fault may surface at any time and poisons the transport.
    pub fn read_packet_into(&mut self, out: &mut Vec<u8>) -> (r: Result<(ID, Kind), Error>)
        ensures
            match old(self).failure() {
                Some(e) => r == Err::<(ID, Kind), Error>(e) && *final(self) == *old(self)
                    && *final(out) == *old(out),
                None => {
                    &&& final(self).sent() == old(self).sent()
                    &&& final(self).flushed() == old(self).flushed()
                    &&& final(self).pending() == old(self).pending()
                    &&& final(self).reliable() == old(self).reliable()
                    &&& (old(self).reliable() ==> r != Err::<(ID, Kind), Error>(Error::IOError))
                    &&& match r {
                        Ok((pid, pkind)) => {
                            &&& assemble(old(self).avail()) matches Assembled::Packet {
                                id,
                                kc,
                                data,
                                rest,
                            }
                            &&& assemble(old(self).avail()) == (Assembled::Packet {
                                id: pid,
                                kc: crate::packet::code_of(pkind),
                                data: final(out)@,
                                rest: final(self).avail(),
                            })
                            &&& pkind == kind_of(crate::packet::code_of(pkind))
                            &&& final(self).failure() is None
                            &&& final(self).tidy()
                        },
                        Err(Error::RemoteClosed) => {
                            &&& assemble(old(self).avail()) == Assembled::Closed
                            &&& final(self).failure() is None
                            &&& final(self).tidy()
                        },
                        Err(Error::IDMonotonicityError) => {
                            &&& assemble(old(self).avail()) == Assembled::Monotonicity
                            &&& final(self).failure() is None
                            &&& final(self).tidy()
                        },
                        Err(Error::PacketKindChangeError) => {
                            &&& assemble(old(self).avail()) == Assembled::KindChange
                            &&& final(self).failure() is None
                            &&& final(self).tidy()
                        },
                        Err(Error::ParseError) => {
                            &&& assemble(old(self).avail()) == Assembled::Malformed
                            &&& final(self).failure() is None
                            &&& final(self).tidy()
                        },
                        Err(Error::DataOverflowError) => old(self).tidy() ==> (assemble(
                            old(self).avail(),
                        ) == Assembled::Overflow || !spans_fit(old(self).avail())),
                        Err(Error::IOError) => final(self).failure() == Some(Error::IOError),
                    }
                },
            },
    {
        match self.err {
            Some(e) => {
                return Err(e);
            },
            None => {},
        }
        out.clear();
        proof {
            assert(out@ =~= Seq::<u8>::empty());
        }
        let mut id = ID::new(0, 0);
        let mut kc: u8 = 0;
        if self.rbuf.len() > RBUF_CAP {
            return Err(Error::DataOverflowError);
        }
        loop
            invariant
                old(self).failure() is None,
                self.err is None,
                self.w.outq() == old(self).w.outq(),
                self.w.reliable() == old(self).w.reliable(),
                self.wbuf@ == old(self).wbuf@,
                self.rbuf@.len() <= RBUF_CAP as int,
                out@.len() <= MAX_PACKET as int,
                assemble(old(self).avail()) == assemble_from(self.avail(), id, kc, out@),
                spans_fit(old(self).avail()) ==> spans_fit(self.avail()),
            decreases self.avail().len(), self.w.inq().len(),
        {
            let ghost pre = *self;
            let parsed = frame::parse_frame(self.rbuf.as_slice());
            proof {
                assert(self.rbuf@ =~= self.avail().take(self.rbuf@.len() as int));
                frame::lemma_parse_stable(self.rbuf@, self.avail());
            }
            match parsed {
                Ok((fr, used)) => {
                    let ghost cur_avail = self.avail();
                    let ghost id0 = id;
                    let ghost kc0 = kc;
                    let ghost acc0 = out@;
                    proof {
                        assert(frame::parse_spec(cur_avail) matches Ok(pf) && pf.frame == fr@
                            && pf.used == used);
                        frame::lemma_parse_used_min(cur_avail);
                    }
                    drain_front(&mut self.rbuf, used);
                    let ghost rest = cur_avail.skip(used as int);
                    proof {
                        assert(self.avail() =~= rest);
                        lemma_spans_fit_step(cur_avail);
                    }
                    if fr.control {
                        proof {
                            assert(assemble_from(cur_avail, id0, kc0, acc0) == assemble_from(
                                rest,
                                id0,
                                kc0,
                                acc0,
                            ));
                        }
                        continue ;
                    }
                    if fr.id.lt(&id) {
                        proof {
                            assert(assemble_from(cur_avail, id0, kc0, acc0)
                                == Assembled::Monotonicity);
                        }
                        return Err(Error::IDMonotonicityError);
                    } else if id.lt(&fr.id) {
                        id = fr.id;
                        kc = fr.kind;
                        out.clear();
                        out.extend_from_slice(fr.data.as_slice());
                        proof {
                            assert(out@ =~= fr.data@);
                        }
                    } else if kc != fr.kind {
                        proof {
                            assert(assemble_from(cur_avail, id0, kc0, acc0)
                                == Assembled::KindChange);
                        }
                        return Err(Error::PacketKindChangeError);
                    } else {
                        out.extend_from_slice(fr.data.as_slice());
                        proof {
                            assert(out@ =~= acc0 + fr.data@);
                        }
                    }
                    if out.len() > MAX_PACKET {
                        proof {
                            assert(assemble_from(cur_avail, id0, kc0, acc0)
                                == Assembled::Overflow);
                        }
                        return Err(Error::DataOverflowError);
                    }
                    if fr.done {
                        let kind = Kind::from_code(kc);
                        proof {
                            crate::packet::lemma_kind_roundtrip(kc);
                            assert(assemble_from(cur_avail, id0, kc0, acc0) == (Assembled::Packet {
                                id: fr.id,
                                kc: fr.kind,
                                data: out@,
                                rest,
                            }));
                        }
                        return Ok((id, kind));
                    }
                    proof {
                        assert(assemble_from(cur_avail, id0, kc0, acc0) == assemble_from(
                            rest,
                            id,
                            kc,
                            out@,
                        ));
                    }
                },
                Err(frame::Error::NotEnoughData) => {
                    let ghost rbuf_pre = self.rbuf@;
                    match self.w.read_chunk(READ_CHUNK) {
                        Ok(b) => {
                            if b.len() == 0 {
                                proof {
                                    assert(self.avail() =~= self.rbuf@);
                                }
                                return Err(Error::RemoteClosed);
                            }
                            self.rbuf.extend_from_slice(b.as_slice());
                            proof {
                                assert(self.rbuf@ =~= rbuf_pre + b@);
                                assert(pre.w.inq().take(b@.len() as int) + pre.w.inq().skip(
                                    b@.len() as int,
                                ) =~= pre.w.inq());
                                assert(self.avail() =~= pre.avail());
                            }
                            if self.rbuf.len() > RBUF_CAP {
                                proof {
                                    assert(rbuf_pre =~= self.avail().take(
                                        rbuf_pre.len() as int,
                                    ));
                                    lemma_cap_overflow(rbuf_pre, self.avail(), id, kc, out@);
                                }
                                return Err(Error::DataOverflowError);
                            }
                        },
                        Err(_) => {
                            self.err = Some(Error::IOError);
                            return Err(Error::IOError);
                        },
                    }
                },
                Err(frame::Error::ParseError) => {
                    return Err(Error::ParseError);
                },
            }
        }
    }

    /// The flush path shared by `flush` and `write_frame`; assumes the
    /// transport is not yet poisoned.
    fn flush_inner(&mut self) -> (r: Result<(), Error>)
        requires
            old(self).failure() is None,
        ensures
            final(self).tidy() == old(self).tidy(),
            final(self).reliable() == old(self).reliable(),
            old(self).reliable() ==> r is Ok,
            final(self).pending() == Seq::<u8>::empty(),
            old(self).sent() == old(self).flushed() ==> *final(self) == *old(self),
            match r {
                Ok(_) => {
                    &&& final(self).sent() == old(self).sent()
                    &&& final(self).flushed() == old(self).sent()
                    &&& final(self).failure() is None
                },
                Err(e) => e == Error::IOError && final(self).failure() == Some(Error::IOError),
            },
    {
        if self.wbuf.len() == 0 {
            proof {
                assert(self.sent() =~= self.flushed());
            }
            return Ok(());
        }
        let sent_ok = self.w.write_all(self.wbuf.as_slice());
        match sent_ok {
            Ok(_) => {},
            Err(_) => {
                self.wbuf.clear();
                self.err = Some(Error::IOError);
                return Err(Error::IOError);
            },
        }
        self.wbuf.clear();
        match self.w.flush() {
            Ok(_) => {},
            Err(_) => {
                self.err = Some(Error::IOError);
                return Err(Error::IOError);
            },
        }
        proof {
            assert(self.sent() =~= old(self).sent());
        }
        Ok(())
    }
}

} // verus!
