//! Frames, the on-wire unit: a header byte packing kind and flags, three
//! varints (stream id, message id, payload length), then the payload.

use vstd::prelude::*;
use vstd::slice::slice_subrange;
use vstd::slice::slice_to_vec;
use crate::id::ID;
use crate::varint;

verus! {

/// One on-wire frame.  `done` marks the last frame of a packet; frames with
/// `control` set are skipped entirely by the reassembler.
#[derive(Debug, PartialEq, Eq, Clone)]
pub struct Frame {
    pub data: Vec<u8>,
    pub id: ID,
    pub kind: u8,
    pub done: bool,
    pub control: bool,
}

/// The mathematical content of a frame.
#[verifier::ext_equal]
pub ghost struct FrameV {
    pub data: Seq<u8>,
    pub id: ID,
    pub kind: u8,
    pub done: bool,
    pub control: bool,
}

impl View for Frame {
    type V = FrameV;

    open spec fn view(&self) -> FrameV {
        FrameV {
            data: self.data@,
            id: self.id,
            kind: self.kind,
            done: self.done,
            control: self.control,
        }
    }
}

/// Why parsing a frame from a byte buffer failed.
#[derive(Debug, PartialEq, Eq, Structural, Clone, Copy)]
pub enum Error {
    /// The buffer ends before the frame does; more bytes may mend it.
    NotEnoughData,
    /// The header is malformed; no amount of further bytes can mend it.
    ParseError,
}

/// The header byte of a frame: control in the top bit, the kind in the six
/// middle bits, done in the low bit.
pub open spec fn header_byte(f: FrameV) -> u8 {
    ((f.kind << 1) | (if f.done {
        1u8
    } else {
        0u8
    }) | (if f.control {
        128u8
    } else {
        0u8
    })) as u8
}

/// The serialization of a frame.
pub open spec fn frame_bytes(f: FrameV) -> Seq<u8> {
    seq![header_byte(f)] + varint::encode(f.id.stream) + varint::encode(f.id.message)
        + varint::encode(f.data.len() as u64) + f.data
}

/// A parsed frame together with the number of bytes it occupied.
pub ghost struct ParsedFrame {
    pub frame: FrameV,
    pub used: int,
}

/// What parsing a frame from the front of `s` yields.
pub open spec fn parse_spec(s: Seq<u8>) -> Result<ParsedFrame, Error> {
    if s.len() == 0 {
        Err(Error::NotEnoughData)
    } else {
        let b0 = s[0];
        let done = (b0 & 1) > 0;
        let control = (b0 & 128) > 0;
        let kind = (b0 & 0x7e) >> 1;
        match varint::read_spec(s.skip(1)) {
            Err(varint::Error::NotEnoughData) => Err(Error::NotEnoughData),
            Err(varint::Error::VarintTooLong) => Err(Error::ParseError),
            Ok((stream, n1)) => match varint::read_spec(s.skip(1 + n1)) {
                Err(varint::Error::NotEnoughData) => Err(Error::NotEnoughData),
                Err(varint::Error::VarintTooLong) => Err(Error::ParseError),
                Ok((message, n2)) => match varint::read_spec(s.skip(1 + n1 + n2)) {
                    Err(varint::Error::NotEnoughData) => Err(Error::NotEnoughData),
                    Err(varint::Error::VarintTooLong) => Err(Error::ParseError),
                    Ok((len, n3)) => {
                        let rest = s.skip(1 + n1 + n2 + n3);
                        if len > rest.len() {
                            Err(Error::NotEnoughData)
                        } else {
                            Ok(
                                ParsedFrame {
                                    frame: FrameV {
                                        data: rest.take(len as int),
                                        id: ID { stream, message },
                                        kind,
                                        done,
                                        control,
                                    },
                                    used: 1 + n1 + n2 + n3 + len,
                                },
                            )
                        }
                    },
                },
            },
        }
    }
}

/// Parses one frame from the front of `buf`, returning it and the number of
/// bytes it occupied.
pub fn parse_frame(buf: &[u8]) -> (r: Result<(Frame, usize), Error>)
    ensures
        match parse_spec(buf@) {
            Ok(pf) => {
                &&& r matches Ok(p)
                &&& p.0@ == pf.frame
                &&& p.1 == pf.used
                &&& 0 < pf.used <= buf@.len()
            },
            Err(e) => r == Err::<(Frame, usize), Error>(e),
        },
{
    if buf.len() == 0 {
        return Err(Error::NotEnoughData);
    }
    let b0 = buf[0];
    let done = (b0 & 1) > 0;
    let control = (b0 & 128) > 0;
    let kind = (b0 & 0x7e) >> 1;

    let rest1 = slice_subrange(buf, 1, buf.len());
    let (stream, n1) = match varint::read(rest1) {
        Ok(p) => p,
        Err(varint::Error::NotEnoughData) => {
            return Err(Error::NotEnoughData);
        },
        Err(varint::Error::VarintTooLong) => {
            return Err(Error::ParseError);
        },
    };

    let rest2 = slice_subrange(rest1, n1, rest1.len());
    proof {
        assert(rest2@ =~= buf@.skip(1 + n1 as int));
    }
    let (message, n2) = match varint::read(rest2) {
        Ok(p) => p,
        Err(varint::Error::NotEnoughData) => {
            return Err(Error::NotEnoughData);
        },
        Err(varint::Error::VarintTooLong) => {
            return Err(Error::ParseError);
        },
    };

    let rest3 = slice_subrange(rest2, n2, rest2.len());
    proof {
        assert(rest3@ =~= buf@.skip(1 + n1 as int + n2 as int));
    }
    let (len, n3) = match varint::read(rest3) {
        Ok(p) => p,
        Err(varint::Error::NotEnoughData) => {
            return Err(Error::NotEnoughData);
        },
        Err(varint::Error::VarintTooLong) => {
            return Err(Error::ParseError);
        },
    };

    let rest4 = slice_subrange(rest3, n3, rest3.len());
    proof {
        assert(rest4@ =~= buf@.skip(1 + n1 as int + n2 as int + n3 as int));
    }
    if len > rest4.len() as u64 {
        return Err(Error::NotEnoughData);
    }
    let data = slice_to_vec(slice_subrange(rest4, 0, len as usize));
    proof {
        assert(data@ =~= buf@.skip(1 + n1 as int + n2 as int + n3 as int).take(len as int));
    }
    let used = 1 + n1 + n2 + n3 + len as usize;
    Ok((Frame { data, id: ID { stream, message }, kind, done, control }, used))
}

/// Appends the serialization of `fr` to `buf`.
pub fn append_frame(buf: &mut Vec<u8>, fr: &Frame)
    ensures
        final(buf)@ == old(buf)@ + frame_bytes(fr@),
{
    let mut hdr = fr.kind << 1;
    if fr.done {
        hdr = hdr | 1;
    }
    if fr.control {
        hdr = hdr | 128;
    }
    proof {
        let k = fr.kind;
        assert(((k << 1) | 0 | 0) == (k << 1) && ((k << 1) | 1 | 0) == ((k << 1) | 1) && ((k << 1)
            | 0 | 128) == ((k << 1) | 128)) by (bit_vector);
        assert(hdr == header_byte(fr@));
    }
    buf.push(hdr);
    varint::append(buf, fr.id.stream);
    varint::append(buf, fr.id.message);
    varint::append(buf, fr.data.len() as u64);
    buf.extend_from_slice(fr.data.as_slice());
    proof {
        assert(buf@ =~= old(buf)@ + frame_bytes(fr@));
    }
}

/// How parsing behaves on a longer buffer with the same front: a parse that
/// succeeded, or failed for good, is unchanged; a parse that succeeds
/// within the front also succeeds there; and a short read on a front of at
/// least 31 bytes (room for the header and all three varints) can only
/// become a success that reaches past the front.
#[verifier::rlimit(80)]
pub proof fn lemma_parse_stable(s: Seq<u8>, t: Seq<u8>)
    requires
        s.len() <= t.len(),
        s == t.take(s.len() as int),
    ensures
        parse_spec(s) matches Ok(pf) ==> parse_spec(t) == parse_spec(s),
        parse_spec(s) == Err::<ParsedFrame, Error>(Error::ParseError) ==> parse_spec(t) == Err::<
            ParsedFrame,
            Error,
        >(Error::ParseError),
        (parse_spec(t) matches Ok(pf) && pf.used <= s.len()) ==> parse_spec(s) == parse_spec(t),
        (parse_spec(s) == Err::<ParsedFrame, Error>(Error::NotEnoughData) && s.len() >= 31) ==> (
        parse_spec(t) == Err::<ParsedFrame, Error>(Error::NotEnoughData) || (parse_spec(t) matches
            Ok(pf) &&
        pf.used > s.len())),
{
    if s.len() == 0 {
        if t.len() > 0 {
            lemma_parse_used_min(t);
        }
    } else {
        assert(t[0] == s[0]);
        let a1 = s.skip(1);
        let b1 = t.skip(1);
        assert(a1 =~= b1.take(a1.len() as int));
        varint::lemma_read_spec_stable(a1, b1);
        lemma_vread_ok_bounds(a1);
        lemma_vread_ok_bounds(b1);
        match varint::read_spec(b1) {
            Ok((stream_t, m1)) => {
                let a2 = s.skip(1 + m1);
                let b2 = t.skip(1 + m1);
                lemma_vread_ok_bounds(b2);
                let within1 = m1 <= a1.len();
                if within1 {
                    assert(varint::read_spec(a1) == varint::read_spec(b1));
                    assert(a2 =~= b2.take(a2.len() as int));
                    varint::lemma_read_spec_stable(a2, b2);
                    lemma_vread_ok_bounds(a2);
                }
                match varint::read_spec(b2) {
                    Ok((message_t, m2)) => {
                        let a3 = s.skip(1 + m1 + m2);
                        let b3 = t.skip(1 + m1 + m2);
                        lemma_vread_ok_bounds(b3);
                        let within2 = within1 && m2 <= a2.len();
                        if within2 {
                            assert(varint::read_spec(a2) == varint::read_spec(b2));
                            assert(a3 =~= b3.take(a3.len() as int));
                            varint::lemma_read_spec_stable(a3, b3);
                            lemma_vread_ok_bounds(a3);
                        }
                        match varint::read_spec(b3) {
                            Ok((len_t, m3)) => {
                                let a4 = s.skip(1 + m1 + m2 + m3);
                                let b4 = t.skip(1 + m1 + m2 + m3);
                                let within3 = within2 && m3 <= a3.len();
                                if within3 {
                                    assert(varint::read_spec(a3) == varint::read_spec(b3));
                                    assert(a4 =~= b4.take(a4.len() as int));
                                    if len_t <= a4.len() {
                                        assert(a4.take(len_t as int) =~= b4.take(len_t as int));
                                    }
                                }
                            },
                            Err(e) => {},
                        }
                    },
                    Err(e) => {},
                }
            },
            Err(e) => {},
        }
    }
}

/// A parsed frame occupies at least four bytes — the header and one byte
/// for each varint — besides its payload, and never reaches past the
/// buffer.
pub proof fn lemma_parse_used_min(t: Seq<u8>)
    ensures
        parse_spec(t) matches Ok(pf) ==> 4 + pf.frame.data.len() <= pf.used <= t.len(),
{
    if t.len() > 0 {
        lemma_vread_ok_bounds(t.skip(1));
        match varint::read_spec(t.skip(1)) {
            Ok((stream, m1)) => {
                lemma_vread_ok_bounds(t.skip(1 + m1));
                match varint::read_spec(t.skip(1 + m1)) {
                    Ok((message, m2)) => {
                        lemma_vread_ok_bounds(t.skip(1 + m1 + m2));
                    },
                    Err(e) => {},
                }
            },
            Err(e) => {},
        }
    }
}

/// A varint read that succeeds consumes between one and ten bytes, all
/// within the buffer.
proof fn lemma_vread_ok_bounds(s: Seq<u8>)
    ensures
        varint::read_spec(s) matches Ok(p) ==> 1 <= p.1 <= s.len() && p.1 <= 10,
{
    varint::lemma_terminator_bounds(s);
}

/// A frame that the executable types can hold: the kind fits the six bits
/// the header gives it, and the payload length fits a 64-bit count.
pub open spec fn wf_frame(f: FrameV) -> bool {
    f.kind < 64 && f.data.len() <= u64::MAX
}

/// Law: a buffer that begins with the serialization of a frame parses back
/// to that frame, consuming exactly the serialization, whatever follows it.
/// The kind must fit the six bits the header gives it.
pub proof fn lemma_frame_roundtrip(f: FrameV, tail: Seq<u8>)
    requires
        wf_frame(f),
    ensures
        frame_bytes(f).len() == 1 + varint::encode(f.id.stream).len() + varint::encode(
            f.id.message,
        ).len() + varint::encode(f.data.len() as u64).len() + f.data.len(),
        parse_spec(frame_bytes(f) + tail) == Ok::<ParsedFrame, Error>(
            ParsedFrame { frame: f, used: frame_bytes(f).len() as int },
        ),
{
    let s = frame_bytes(f) + tail;
    let e1 = varint::encode(f.id.stream);
    let e2 = varint::encode(f.id.message);
    let e3 = varint::encode(f.data.len() as u64);
    let b0 = header_byte(f);
    assert(s[0] == b0);

    let d = if f.done {
        1u8
    } else {
        0u8
    };
    let c = if f.control {
        128u8
    } else {
        0u8
    };
    let k = f.kind;
    assert((((k << 1) | d | c) & 1 > 0) == (d == 1) && (((k << 1) | d | c) & 128 > 0) == (c == 128)
        && ((((k << 1) | d | c) & 0x7e) >> 1) == k) by (bit_vector)
        requires
            k < 64,
            d == 0 || d == 1,
            c == 0 || c == 128,
    ;

    assert(s.skip(1) =~= e1 + (e2 + e3 + f.data + tail));
    varint::lemma_roundtrip(f.id.stream, e2 + e3 + f.data + tail);
    let n1 = e1.len() as int;
    assert(s.skip(1 + n1) =~= e2 + (e3 + f.data + tail));
    varint::lemma_roundtrip(f.id.message, e3 + f.data + tail);
    let n2 = e2.len() as int;
    assert(s.skip(1 + n1 + n2) =~= e3 + (f.data + tail));
    varint::lemma_roundtrip(f.data.len() as u64, f.data + tail);
    let n3 = e3.len() as int;
    let rest = s.skip(1 + n1 + n2 + n3);
    assert(rest =~= f.data + tail);
    assert(rest.take(f.data.len() as int) =~= f.data);
    assert(parse_spec(s) matches Ok(pf) && pf.frame =~= f);
}

/// Law: a strict prefix of a frame's serialization parses to
/// `NotEnoughData`.
#[verifier::rlimit(80)]
pub proof fn lemma_frame_truncated(f: FrameV, n: int)
    requires
        wf_frame(f),
        0 <= n < frame_bytes(f).len(),
    ensures
        parse_spec(frame_bytes(f).take(n)) == Err::<ParsedFrame, Error>(Error::NotEnoughData),
{
    let s = frame_bytes(f).take(n);
    if n == 0 {
        assert(s.len() == 0);
    } else {
        let e1 = varint::encode(f.id.stream);
        let e2 = varint::encode(f.id.message);
        let e3 = varint::encode(f.data.len() as u64);
        let n1 = e1.len() as int;
        let n2 = e2.len() as int;
        let n3 = e3.len() as int;
        varint::lemma_encode_props(f.id.stream);
        varint::lemma_encode_props(f.id.message);
        varint::lemma_encode_props(f.data.len() as u64);
        if n < 1 + n1 {
            // Cut inside the first varint.
            assert(s.skip(1) =~= e1.take(n - 1));
            varint::lemma_truncated(f.id.stream, n - 1);
        } else if n < 1 + n1 + n2 {
            // Cut inside the second varint.
            assert(s.skip(1) =~= e1 + e2.take(n - 1 - n1));
            varint::lemma_roundtrip(f.id.stream, e2.take(n - 1 - n1));
            assert(s.skip(1 + n1) =~= e2.take(n - 1 - n1));
            varint::lemma_truncated(f.id.message, n - 1 - n1);
        } else if n < 1 + n1 + n2 + n3 {
            // Cut inside the third varint.
            assert(s.skip(1) =~= e1 + (e2 + e3.take(n - 1 - n1 - n2)));
            varint::lemma_roundtrip(f.id.stream, e2 + e3.take(n - 1 - n1 - n2));
            assert(s.skip(1 + n1) =~= e2 + e3.take(n - 1 - n1 - n2));
            varint::lemma_roundtrip(f.id.message, e3.take(n - 1 - n1 - n2));
            assert(s.skip(1 + n1 + n2) =~= e3.take(n - 1 - n1 - n2));
            varint::lemma_truncated(f.data.len() as u64, n - 1 - n1 - n2);
        } else {
            // Cut inside the payload: fewer bytes remain than the length
            // field says.
            let cut = n - 1 - n1 - n2 - n3;
            assert(0 <= cut < f.data.len());
            assert(s.skip(1) =~= e1 + (e2 + e3 + f.data.take(cut)));
            varint::lemma_roundtrip(f.id.stream, e2 + e3 + f.data.take(cut));
            assert(s.skip(1 + n1) =~= e2 + (e3 + f.data.take(cut)));
            varint::lemma_roundtrip(f.id.message, e3 + f.data.take(cut));
            assert(s.skip(1 + n1 + n2) =~= e3 + f.data.take(cut));
            varint::lemma_roundtrip(f.data.len() as u64, f.data.take(cut));
            assert(s.skip(1 + n1 + n2 + n3) =~= f.data.take(cut));
        }
    }
}

} // verus!
