//! An in-memory byte buffer usable as a channel end: what is written to it
//! can be read back from it, in order.

use vstd::prelude::*;
use vstd::slice::slice_subrange;
use vstd::slice::slice_to_vec;
use crate::wire::Fault;
use crate::wire::Wire;

verus! {

/// The bytes the buffer holds.
pub struct BufferState {
    buf: Vec<u8>,
}

impl BufferState {
    /// The bytes held, oldest first.
    pub closed spec fn view_bytes(&self) -> Seq<u8> {
        self.buf@
    }

    /// An empty state.
    pub fn new() -> (s: BufferState)
        ensures
            s.view_bytes() == Seq::<u8>::empty(),
    {
        BufferState { buf: Vec::new() }
    }

    /// A state holding the given bytes.
    pub fn from(buf: Vec<u8>) -> (s: BufferState)
        ensures
            s.view_bytes() == buf@,
    {
        BufferState { buf }
    }

    /// Whether nothing is held.
    pub fn empty(&self) -> (r: bool)
        ensures
            r <==> self.view_bytes().len() == 0,
    {
        self.buf.len() == 0
    }

    /// Whether the buffer has grown past the point where a writer should
    /// hold off.
    pub fn full(&self) -> (r: bool)
        ensures
            r <==> self.view_bytes().len() > 4096,
    {
        self.buf.len() > 4096
    }
}

/// An in-memory loopback channel: reading returns what writing put in,
/// oldest bytes first.  The write history is kept as a ghost so the
/// channel contract can speak of everything ever accepted.
pub struct Buffer {
    state: BufferState,
    hist: Ghost<Seq<u8>>,
}

impl Buffer {
    /// An empty buffer.
    pub fn new() -> (b: Buffer)
        ensures
            b.inq() == Seq::<u8>::empty(),
            b.outq() == Seq::<u8>::empty(),
    {
        Buffer { state: BufferState::new(), hist: Ghost(Seq::empty()) }
    }

    /// A buffer primed with bytes to be read.
    pub fn from(buf: Vec<u8>) -> (b: Buffer)
        ensures
            b.inq() == buf@,
            b.outq() == Seq::<u8>::empty(),
    {
        Buffer { state: BufferState::from(buf), hist: Ghost(Seq::empty()) }
    }

    /// Empties the buffer and hands its contents over.
    pub fn take_contents(&mut self) -> (r: Vec<u8>)
        ensures
            r@ == old(self).inq(),
            final(self).inq() == Seq::<u8>::empty(),
            final(self).outq() == old(self).outq(),
    {
        let mut t: Vec<u8> = Vec::new();
        core::mem::swap(&mut self.state.buf, &mut t);
        t
    }

    /// Appends `data`; it will be read after everything already held.
    pub fn write(&mut self, data: &[u8]) -> (r: Result<usize, Fault>)
        ensures
            r == Ok::<usize, Fault>(data@.len() as usize),
            final(self).inq() == old(self).inq() + data@,
            final(self).outq() == old(self).outq() + data@,
    {
        self.state.buf.extend_from_slice(data);
        proof {
            assert(self.state.buf@ =~= old(self).state.buf@ + data@);
            assert(self.hist@ + data@ =~= old(self).hist@ + data@);
        }
        self.hist = Ghost(self.hist@ + data@);
        Ok(data.len())
    }

    /// Moves up to `out.len()` held bytes into the front of `out` and says
    /// how many.
    pub fn read(&mut self, out: &mut Vec<u8>) -> (r: Result<usize, Fault>)
        ensures
            final(out)@.len() == old(out)@.len(),
            final(self).outq() == old(self).outq(),
            r matches Ok(n) && {
                let k = if old(out)@.len() <= old(self).inq().len() {
                    old(out)@.len() as int
                } else {
                    old(self).inq().len() as int
                };
                &&& n == k
                &&& final(self).inq() == old(self).inq().skip(k)
                &&& forall|i: int|
                    0 <= i < final(out)@.len() ==> final(out)@[i] == if i < k {
                        old(self).inq()[i]
                    } else {
                        old(out)@[i]
                    }
            },
    {
        let n: usize = if out.len() <= self.state.buf.len() {
            out.len()
        } else {
            self.state.buf.len()
        };
        let mut i: usize = 0;
        while i < n
            invariant
                0 <= i <= n,
                n <= out@.len(),
                n <= self.state.buf@.len(),
                out@.len() == old(out)@.len(),
                self == old(self),
                forall|j: int|
                    0 <= j < out@.len() ==> out@[j] == if j < i {
                        self.state.buf@[j]
                    } else {
                        old(out)@[j]
                    },
            decreases n - i,
        {
            let v = self.state.buf[i];
            *vstd::std_specs::vec::vec_index_mut(out, i) = v;
            i = i + 1;
        }
        let tail = self.state.buf.split_off(n);
        self.state.buf = tail;
        Ok(n)
    }

    /// Nothing buffers beyond the buffer itself.
    pub fn flush(&mut self) -> (r: Result<(), Fault>)
        ensures
            r == Ok::<(), Fault>(()),
            *final(self) == *old(self),
    {
        Ok(())
    }
}

impl Wire for Buffer {
    closed spec fn inq(&self) -> Seq<u8> {
        self.state.buf@
    }

    closed spec fn outq(&self) -> Seq<u8> {
        self.hist@
    }

    closed spec fn reliable(&self) -> bool {
        true
    }

    fn read_chunk(&mut self, max: usize) -> (r: Result<Vec<u8>, Fault>)
        ensures
            final(self).outq() == old(self).outq(),
            final(self).reliable() == old(self).reliable(),
            r is Ok,
            r matches Ok(b) ==> {
                &&& b@.len() <= max
                &&& b@.len() <= old(self).inq().len()
                &&& b@ == old(self).inq().take(b@.len() as int)
                &&& final(self).inq() == old(self).inq().skip(b@.len() as int)
                &&& (b@.len() == 0 && max > 0 ==> old(self).inq().len() == 0)
            },
    {
        let n: usize = if max <= self.state.buf.len() {
            max
        } else {
            self.state.buf.len()
        };
        let b = slice_to_vec(slice_subrange(self.state.buf.as_slice(), 0, n));
        let tail = self.state.buf.split_off(n);
        self.state.buf = tail;
        Ok(b)
    }

    fn write_all(&mut self, data: &[u8]) -> (r: Result<(), Fault>)
        ensures
            final(self).reliable() == old(self).reliable(),
            r is Ok,
            r matches Ok(v) ==> final(self).outq() == old(self).outq() + data@,
    {
        match self.write(data) {
            Ok(_) => Ok(()),
            Err(f) => Err(f),
        }
    }

    fn flush(&mut self) -> (r: Result<(), Fault>)
        ensures
            final(self).outq() == old(self).outq(),
            final(self).reliable() == old(self).reliable(),
            r is Ok,
    {
        Ok(())
    }
}

} // verus!
