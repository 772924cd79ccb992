//! Splitting a packet into frames of a bounded payload size.  Only the final
//! frame carries the `done` mark; every frame shares the packet's identifier
//! and kind.

use vstd::prelude::*;
use vstd::slice::slice_subrange;
use vstd::slice::slice_to_vec;
use crate::frame::Frame;
use crate::frame::FrameV;
use crate::id::ID;
use crate::packet::Packet;
use crate::packet::code_of;

verus! {

/// The payload pieces that cutting `data` into pieces of size `n` produces:
/// one piece holding everything when `n` is zero or nothing is left over,
/// otherwise pieces of exactly `n` bytes followed by the remainder.
pub open spec fn chunks(data: Seq<u8>, n: int) -> Seq<Seq<u8>>
    decreases data.len(),
{
    if n <= 0 || data.len() <= n {
        seq![data]
    } else {
        seq![data.take(n)] + chunks(data.skip(n), n)
    }
}

/// The concatenation of a sequence of byte sequences.
pub open spec fn flat(cs: Seq<Seq<u8>>) -> Seq<u8>
    decreases cs.len(),
{
    if cs.len() == 0 {
        Seq::empty()
    } else {
        cs[0] + flat(cs.skip(1))
    }
}

/// The frames that splitting a packet with payload `data`, identifier `id`
/// and kind code `kind` at size `n` produces.
pub open spec fn split_frames(data: Seq<u8>, n: int, id: ID, kind: u8) -> Seq<FrameV> {
    let cs = chunks(data, n);
    Seq::new(
        cs.len(),
        |i: int|
            FrameV { data: cs[i], id, kind, done: i == cs.len() - 1, control: false },
    )
}

/// The frames of one packet, yielded one at a time.
pub struct Split {
    data: Vec<u8>,
    id: ID,
    kind: u8,
    n: usize,
    done: bool,
}

impl Split {
    /// The frames still to be yielded.
    pub closed spec fn rem(&self) -> Seq<FrameV> {
        if self.done {
            Seq::empty()
        } else {
            split_frames(self.data@, self.n as int, self.id, self.kind)
        }
    }

    /// Yields the next frame, or nothing once the final frame is out.
    pub fn next(&mut self) -> (r: Option<Frame>)
        ensures
            old(self).rem().len() == 0 ==> r is None && final(self).rem() == Seq::<FrameV>::empty(),
            old(self).rem().len() > 0 ==> {
                &&& r matches Some(f)
                &&& f@ =~~= old(self).rem()[0]
                &&& final(self).rem() =~~= old(self).rem().skip(1)
            },
    {
        if self.done {
            return None;
        }
        let mut fr = Frame {
            data: Vec::new(),
            id: self.id,
            kind: self.kind,
            done: true,
            control: false,
        };
        if self.data.len() > self.n && self.n > 0 {
            fr.data = slice_to_vec(slice_subrange(self.data.as_slice(), 0, self.n));
            let tail = self.data.split_off(self.n);
            self.data = tail;
            fr.done = false;
            self.done = false;
            proof {
                let cs = chunks(old(self).data@, self.n as int);
                assert(cs == seq![old(self).data@.take(self.n as int)] + chunks(
                    old(self).data@.skip(self.n as int),
                    self.n as int,
                ));
                assert(fr.data@ =~= old(self).data@.take(self.n as int));
                assert(self.data@ =~= old(self).data@.skip(self.n as int));
                lemma_chunks_len(old(self).data@.skip(self.n as int), self.n as int);
                assert(cs.len() >= 2);
                assert(fr@ =~~= old(self).rem()[0]);
                assert(self.rem() =~~= old(self).rem().skip(1));
            }
        } else {
            fr.data = slice_to_vec(self.data.as_slice());
            self.done = true;
            proof {
                assert(chunks(old(self).data@, self.n as int) == seq![old(self).data@]);
                assert(old(self).rem().len() == 1);
                assert(fr@ =~~= old(self).rem()[0]);
                assert(self.rem() =~~= old(self).rem().skip(1));
            }
        }
        Some(fr)
    }
}

/// A chunk list is never empty.
proof fn lemma_chunks_len(data: Seq<u8>, n: int)
    ensures
        chunks(data, n).len() >= 1,
    decreases data.len(),
{
    if !(n <= 0 || data.len() <= n) {
        lemma_chunks_len(data.skip(n), n);
    }
}

/// Starts splitting `pkt` into frames whose payloads carry at most `n`
/// bytes each; `n == 0` leaves the payload whole.
pub fn split(pkt: &Packet, n: usize) -> (s: Split)
    ensures
        s.rem() == split_frames(pkt.data@, n as int, pkt.id, code_of(pkt.kind)),
{
    Split {
        data: slice_to_vec(pkt.data.as_slice()),
        id: pkt.id,
        kind: pkt.kind.code(),
        n,
        done: false,
    }
}

/// Law: the frames of a split carry the packet's identifier and kind and no
/// control mark; exactly the last frame is marked done; their payloads
/// concatenate back to the packet's payload; and with a positive bound all
/// but the last payload hold exactly `n` bytes, the last at most `n`.
pub proof fn lemma_split_law(data: Seq<u8>, n: int, id: ID, kind: u8)
    ensures
        split_frames(data, n, id, kind).len() >= 1,
        forall|i: int|
            0 <= i < split_frames(data, n, id, kind).len() ==> {
                let f = #[trigger] split_frames(data, n, id, kind)[i];
                f.id == id && f.kind == kind && !f.control && (f.done <==> i == split_frames(
                    data,
                    n,
                    id,
                    kind,
                ).len() - 1)
            },
        flat(Seq::new(split_frames(data, n, id, kind).len(), |i: int| split_frames(data, n, id, kind)[i].data))
            == data,
        n > 0 ==> forall|i: int|
            0 <= i < split_frames(data, n, id, kind).len() - 1 ==> (#[trigger] split_frames(
                data,
                n,
                id,
                kind,
            )[i]).data.len() == n,
        n > 0 ==> split_frames(data, n, id, kind)[split_frames(data, n, id, kind).len() - 1].data.len()
            <= n,
    decreases data.len(),
{
    lemma_chunks_len(data, n);
    lemma_chunks_flat(data, n);
    if n > 0 {
        lemma_chunks_sizes(data, n);
    }
    let fs = split_frames(data, n, id, kind);
    let cs = chunks(data, n);
    assert(Seq::new(fs.len(), |i: int| fs[i].data) =~~= cs);
}

/// The chunks of `data` concatenate back to `data`.
proof fn lemma_chunks_flat(data: Seq<u8>, n: int)
    ensures
        flat(chunks(data, n)) == data,
    decreases data.len(),
{
    if n <= 0 || data.len() <= n {
        assert(chunks(data, n) == seq![data]);
        assert(seq![data].skip(1) =~= Seq::<Seq<u8>>::empty());
        assert(flat(Seq::<Seq<u8>>::empty()) == Seq::<u8>::empty());
        assert(seq![data][0] == data);
        assert(data + Seq::<u8>::empty() =~= data);
        assert(flat(chunks(data, n)) == data);
    } else {
        lemma_chunks_flat(data.skip(n), n);
        let cs = chunks(data, n);
        assert(cs[0] == data.take(n));
        assert(cs.skip(1) =~= chunks(data.skip(n), n));
        assert(flat(cs) =~= data);
    }
}

/// With a positive bound, every chunk but the last holds exactly `n` bytes
/// and the last at most `n`.
proof fn lemma_chunks_sizes(data: Seq<u8>, n: int)
    requires
        n > 0,
    ensures
        forall|i: int|
            0 <= i < chunks(data, n).len() - 1 ==> (#[trigger] chunks(data, n)[i]).len() == n,
        chunks(data, n)[chunks(data, n).len() - 1].len() <= n,
    decreases data.len(),
{
    if data.len() <= n {
    } else {
        lemma_chunks_sizes(data.skip(n), n);
        lemma_chunks_len(data.skip(n), n);
        let cs = chunks(data, n);
        assert(cs.skip(1) =~= chunks(data.skip(n), n));
        assert(forall|i: int| 1 <= i < cs.len() ==> cs[i] == chunks(data.skip(n), n)[i - 1]);
    }
}

} // verus!
