//! Little-endian base-128 varints: up to 64 bits of payload, seven bits per
//! byte, the high bit of each byte marking continuation.

use vstd::prelude::*;

verus! {

/// Why reading a varint from a byte buffer failed.
#[derive(Debug, PartialEq, Eq, Structural, Clone, Copy)]
pub enum Error {
    /// The buffer ended before a terminator byte (a byte below 128) was seen.
    NotEnoughData,
    /// Ten continuation bytes went by without a terminator.
    VarintTooLong,
}

/// Index of the first terminator byte (first byte below 128), if any.
pub open spec fn terminator(s: Seq<u8>) -> Option<int>
    decreases s.len(),
{
    if s.len() == 0 {
        None
    } else if s[0] < 128 {
        Some(0int)
    } else {
        match terminator(s.skip(1)) {
            Some(i) => Some(i + 1),
            None => None,
        }
    }
}

/// The value denoted by the base-128 bytes of `s`: each byte contributes its
/// low seven bits, least significant first; bits shifted past position 63 are
/// lost, exactly as in the reader.
pub open spec fn decode(s: Seq<u8>) -> u64
    decreases s.len(),
{
    if s.len() == 0 {
        0u64
    } else {
        ((s[0] as u64) & 127) | (decode(s.skip(1)) << 7)
    }
}

/// The canonical encoding of `x`: the shortest byte sequence that `decode`
/// maps back to `x`.
pub open spec fn encode(x: u64) -> Seq<u8>
    decreases x,
{
    if x < 128 {
        seq![x as u8]
    } else {
        seq![(x % 128 + 128) as u8] + encode(x / 128)
    }
}

/// What reading a varint from `s` yields: the value and the bytes consumed,
/// or the reason it fails.
pub open spec fn read_spec(s: Seq<u8>) -> Result<(u64, int), Error> {
    match terminator(s) {
        Some(i) => if i < 10 {
            Ok((decode(s.take(i + 1)), i + 1))
        } else {
            Err(Error::VarintTooLong)
        },
        None => if s.len() < 10 {
            Err(Error::NotEnoughData)
        } else {
            Err(Error::VarintTooLong)
        },
    }
}

/// Reads one varint from the front of `buf`, returning the value and the
/// number of bytes consumed.
pub fn read(buf: &[u8]) -> (r: Result<(u64, usize), Error>)
    ensures
        match read_spec(buf@) {
            Ok(p) => 1 <= p.1 <= buf@.len() && r == Ok::<(u64, usize), Error>((p.0, p.1 as usize)),
            Err(e) => r == Err::<(u64, usize), Error>(e),
        },
{
    let mut out: u64 = 0;
    let mut i: usize = 0;

    while i < 10
        invariant
            0 <= i <= 10,
            i <= buf@.len(),
            terminator(buf@.take(i as int)) == None::<int>,
            out == decode(buf@.take(i as int)),
        decreases 10 - i,
    {
        if i >= buf.len() {
            proof {
                assert(buf@.take(i as int) =~= buf@);
            }
            return Err(Error::NotEnoughData);
        }
        let val = buf[i];
        proof {
            lemma_decode_take_step(buf@, i as int);
        }
        let shift: u64 = 7 * (i as u64);
        out = out | (((val as u64) & 127) << shift);
        i = i + 1;
        if val < 128 {
            proof {
                lemma_terminator_found(buf@, i - 1);
            }
            return Ok((out, i));
        }
        proof {
            lemma_terminator_extend(buf@, i - 1);
        }
    }
    proof {
        lemma_terminator_late(buf@, 10);
    }
    Err(Error::VarintTooLong)
}

/// Appends the canonical encoding of `x` to `buf`.
pub fn append(buf: &mut Vec<u8>, x: u64)
    ensures
        final(buf)@ == old(buf)@ + encode(x),
{
    let mut x = x;
    let ghost x0 = x;
    let ghost b0 = buf@;
    while x >= 128
        invariant
            buf@ + encode(x) == b0 + encode(x0),
        decreases x,
    {
        proof {
            assert((x & 127 | 128) == x % 128 + 128 && (x >> 7) == x / 128 && (x >> 7) < x) by (
            bit_vector)
                requires
                    x >= 128,
            ;
        }
        buf.push((x & 127 | 128) as u8);
        x = x >> 7;
        proof {
            assert(buf@ + encode(x) =~= b0 + encode(x0));
        }
    }
    buf.push(x as u8);
    proof {
        assert(buf@ =~= b0 + encode(x0));
    }
}

proof fn lemma_decode_take_step(s: Seq<u8>, k: int)
    requires
        0 <= k < s.len(),
        k <= 9,
    ensures
        decode(s.take(k + 1)) == decode(s.take(k)) | (((s[k] as u64) & 127) << ((7 * k) as u64)),
    decreases k,
{
    if k == 0 {
        assert(s.take(1).skip(1) =~= Seq::<u8>::empty());
        assert(s.take(0) =~= Seq::<u8>::empty());
        assert(s.take(1)[0] == s[0]);
        let b = s[0] as u64;
        assert((b & 127) | (0u64 << 7) == 0u64 | ((b & 127) << 0)) by (bit_vector);
    } else {
        let t = s.skip(1);
        lemma_decode_take_step(t, k - 1);
        assert(s.take(k + 1).skip(1) =~= t.take(k));
        assert(s.take(k).skip(1) =~= t.take(k - 1));
        assert(s.take(k + 1)[0] == s[0]);
        assert(s.take(k)[0] == s[0]);
        assert(t[k - 1] == s[k]);
        let a = (s[0] as u64) & 127;
        let b = decode(t.take(k - 1));
        let c = (s[k] as u64) & 127;
        let sh = (7 * (k - 1)) as u64;
        assert(a | ((b | (c << sh)) << 7) == (a | (b << 7)) | (c << ((sh + 7) as u64))) by (
        bit_vector)
            requires
                sh <= 56,
        ;
        assert((7 * k) as u64 == (sh + 7) as u64);
    }
}

proof fn lemma_terminator_found(s: Seq<u8>, k: int)
    requires
        0 <= k < s.len(),
        terminator(s.take(k)) == None::<int>,
        s[k] < 128,
    ensures
        terminator(s) == Some(k),
    decreases k,
{
    if k == 0 {
        assert(s[0] < 128);
    } else {
        assert(s.take(k)[0] == s[0]);
        assert(s[0] >= 128) by {
            if s[0] < 128 {
                assert(terminator(s.take(k)) == Some(0int));
            }
        }
        assert(s.take(k).skip(1) =~= s.skip(1).take(k - 1));
        lemma_terminator_found(s.skip(1), k - 1);
    }
}

proof fn lemma_terminator_extend(s: Seq<u8>, k: int)
    requires
        0 <= k < s.len(),
        terminator(s.take(k)) == None::<int>,
        s[k] >= 128,
    ensures
        terminator(s.take(k + 1)) == None::<int>,
    decreases k,
{
    if k == 0 {
        assert(s.take(1)[0] == s[0]);
        assert(s.take(1).skip(1) =~= Seq::<u8>::empty());
        assert(s.take(1).len() == 1);
        assert(s.take(1)[0] >= 128);
        assert(terminator(Seq::<u8>::empty()) == None::<int>);
        assert(terminator(s.take(1).skip(1)) == None::<int>);
        assert(terminator(s.take(1)) == None::<int>);
    } else {
        assert(s.take(k)[0] == s[0]);
        assert(s.take(k + 1)[0] == s[0]);
        assert(s[0] >= 128) by {
            if s[0] < 128 {
                assert(terminator(s.take(k)) == Some(0int));
            }
        }
        assert(s.take(k).skip(1) =~= s.skip(1).take(k - 1));
        assert(s.take(k + 1).skip(1) =~= s.skip(1).take(k));
        lemma_terminator_extend(s.skip(1), k - 1);
    }
}

proof fn lemma_terminator_late(s: Seq<u8>, k: int)
    requires
        0 <= k <= s.len(),
        terminator(s.take(k)) == None::<int>,
    ensures
        terminator(s) matches Some(i) ==> i >= k,
    decreases k,
{
    lemma_terminator_bounds(s);
    if k > 0 {
        assert(s.take(k)[0] == s[0]);
        assert(s[0] >= 128) by {
            if s[0] < 128 {
                assert(terminator(s.take(k)) == Some(0int));
            }
        }
        assert(s.take(k).skip(1) =~= s.skip(1).take(k - 1));
        lemma_terminator_late(s.skip(1), k - 1);
        assert(s.len() > 0);
        match terminator(s.skip(1)) {
            Some(i) => {
                assert(i >= k - 1);
                assert(terminator(s) == Some(i + 1));
                assert(i + 1 >= k);
            },
            None => {
                assert(terminator(s) == None::<int>);
            },
        }
    }
}

/// The terminator index, where there is one, lies inside the sequence.
pub proof fn lemma_terminator_bounds(s: Seq<u8>)
    ensures
        terminator(s) matches Some(i) ==> 0 <= i < s.len(),
    decreases s.len(),
{
    if s.len() > 0 && s[0] >= 128 {
        lemma_terminator_bounds(s.skip(1));
    }
}

proof fn lemma_terminator_prefix_of_none(s: Seq<u8>, k: int)
    requires
        0 <= k <= s.len(),
        terminator(s) == None::<int>,
    ensures
        terminator(s.take(k)) == None::<int>,
    decreases k,
{
    if k > 0 {
        assert(s[0] >= 128) by {
            if s[0] < 128 {
                assert(terminator(s) == Some(0int));
            }
        }
        assert(s.take(k)[0] == s[0]);
        lemma_terminator_prefix_of_none(s.skip(1), k - 1);
        assert(s.take(k).skip(1) =~= s.skip(1).take(k - 1));
    } else {
        assert(s.take(0) =~= Seq::<u8>::empty());
    }
}

proof fn lemma_terminator_extend_some(s: Seq<u8>, t: Seq<u8>, i: int)
    requires
        s.len() <= t.len(),
        s == t.take(s.len() as int),
        terminator(s) == Some(i),
    ensures
        terminator(t) == Some(i),
    decreases s.len(),
{
    lemma_terminator_bounds(s);
    assert(0 <= i < s.len());
    assert(s.len() > 0);
    assert(t[0] == s[0]);
    if s[0] < 128 {
        assert(terminator(t) == Some(0int));
    } else {
        assert(terminator(s.skip(1)) == Some(i - 1));
        assert(s.skip(1).len() < s.len());
        assert(s.skip(1).len() <= t.skip(1).len());
        assert(s.skip(1) =~= t.skip(1).take(s.skip(1).len() as int));
        lemma_terminator_extend_some(s.skip(1), t.skip(1), i - 1);
    }
}

proof fn lemma_terminator_restrict(t: Seq<u8>, m: int, i: int)
    requires
        terminator(t) == Some(i),
        0 <= i < m <= t.len(),
    ensures
        terminator(t.take(m)) == Some(i),
    decreases i,
{
    assert(t.len() > 0);
    assert(t.take(m)[0] == t[0]);
    if t[0] < 128 {
        assert(i == 0);
    } else {
        lemma_terminator_bounds(t.skip(1));
        assert(terminator(t.skip(1)) == Some(i - 1));
        assert(i >= 1);
        lemma_terminator_restrict(t.skip(1), m - 1, i - 1);
        assert(t.take(m).skip(1) =~= t.skip(1).take(m - 1));
    }
}

/// How reading a varint behaves on a longer buffer with the same front: a
/// read that succeeded, or failed for good, is unchanged; and a read that
/// succeeds within the shorter front also succeeds there.
pub proof fn lemma_read_spec_stable(s: Seq<u8>, t: Seq<u8>)
    requires
        s.len() <= t.len(),
        s == t.take(s.len() as int),
    ensures
        read_spec(s) matches Ok(p) ==> read_spec(t) == read_spec(s),
        read_spec(s) == Err::<(u64, int), Error>(Error::VarintTooLong) ==> read_spec(t) == Err::<
            (u64, int),
            Error,
        >(Error::VarintTooLong),
        (read_spec(t) matches Ok(p) && p.1 <= s.len()) ==> read_spec(s) == read_spec(t),
{
    lemma_terminator_bounds(s);
    lemma_terminator_bounds(t);
    match terminator(s) {
        Some(i) => {
            lemma_terminator_extend_some(s, t, i);
            if i < 10 {
                assert(s.take(i + 1) =~= t.take(i + 1));
            }
        },
        None => {
            if s.len() >= 10 {
                lemma_terminator_prefix_of_none(s, 10);
                assert(s.take(10) =~= t.take(10));
                lemma_terminator_late(t, 10);
            } else {
                match terminator(t) {
                    Some(j) => {
                        if j < s.len() {
                            lemma_terminator_restrict(t, s.len() as int, j);
                        }
                    },
                    None => {},
                }
            }
        },
    }
}

/// Facts about the canonical encoding: its length, its shape, and that
/// decoding it restores the value.
pub proof fn lemma_encode_props(x: u64)
    ensures
        1 <= encode(x).len() <= 10,
        forall|j: int| 0 <= j < encode(x).len() - 1 ==> encode(x)[j] >= 128,
        encode(x)[encode(x).len() - 1] < 128,
        decode(encode(x)) == x,
    decreases x,
{
    lemma_encode_len(x);
    if x < 128 {
        let e = encode(x);
        assert(e[0] == x as u8);
        assert(e.skip(1) =~= Seq::<u8>::empty());
        assert(((x as u8) as u64 & 127) | (0u64 << 7) == x) by (bit_vector)
            requires
                x < 128,
        ;
        assert(decode(e.skip(1)) == 0);
        assert(decode(e) == ((e[0] as u64) & 127) | (0u64 << 7));
        assert(decode(e) == x);
    } else {
        let x2 = x / 128;
        assert((x / 128) < x && (x / 128) == (x >> 7)) by (bit_vector)
            requires
                x >= 128,
        ;
        lemma_encode_props(x2);
        let e = encode(x);
        let t = encode(x2);
        let b0 = (x % 128 + 128) as u8;
        assert(e == seq![b0] + t);
        assert(e[0] == b0);
        assert(e.skip(1) =~= t);
        let y = decode(t);
        assert(((x % 128 + 128) as u8) as u64 & 127 | (y << 7) == x && ((x % 128 + 128) as u8)
            >= 128) by (bit_vector)
            requires
                x >= 128,
                y == x >> 7,
        ;
        assert forall|j: int| 0 <= j < e.len() - 1 implies e[j] >= 128 by {
            if j > 0 {
                assert(e[j] == t[j - 1]);
            }
        }
        assert(e[e.len() - 1] == t[t.len() - 1]);
        assert(e.len() > 0);
        assert(decode(e) == ((e[0] as u64) & 127) | (decode(e.skip(1)) << 7));
        assert(decode(e.skip(1)) == y);
        assert((e[0] as u64) == ((x % 128 + 128) as u8) as u64);
        assert(decode(e) == x);
    }
}

proof fn lemma_encode_len(x: u64)
    ensures
        1 <= encode(x).len() <= 10,
{
    lemma_encode_len_step(x, 10);
}

proof fn lemma_encode_len_step(x: u64, k: int)
    requires
        1 <= k,
        k >= 10 || x < (1u64 << ((7 * k) as u64)),
    ensures
        1 <= encode(x).len() <= k,
    decreases x,
{
    if x < 128 {
    } else {
        let x2 = x / 128;
        assert((x / 128) < x && (x / 128) == (x >> 7)) by (bit_vector)
            requires
                x >= 128,
        ;
        if k >= 10 {
            assert((x >> 7) < (1u64 << 63u64)) by (bit_vector);
            lemma_encode_len_step(x2, 9);
        } else {
            assert(k >= 2) by {
                if k == 1 {
                    assert((1u64 << 7u64) == 128) by (bit_vector);
                }
            }
            let sh = (7 * (k - 1)) as u64;
            assert(x < (1u64 << ((sh + 7) as u64)) ==> (x >> 7) < (1u64 << sh)) by (bit_vector)
                requires
                    sh <= 56,
            ;
            lemma_encode_len_step(x2, k - 1);
        }
    }
}

/// Law: a buffer that begins with the encoding of `x` reads back as `x`,
/// consuming exactly the encoding, whatever follows it.
pub proof fn lemma_roundtrip(x: u64, tail: Seq<u8>)
    ensures
        1 <= encode(x).len() <= 10,
        terminator(encode(x) + tail) == Some(encode(x).len() - 1),
        decode((encode(x) + tail).take(encode(x).len() as int)) == x,
        read_spec(encode(x) + tail) == Ok::<(u64, int), Error>((x, encode(x).len() as int)),
{
    lemma_encode_props(x);
    let s = encode(x) + tail;
    let n = encode(x).len() as int;
    assert(s.take(n - 1) =~= encode(x).take(n - 1));
    lemma_terminator_none_of_high(encode(x).take(n - 1));
    assert(s[n - 1] == encode(x)[n - 1]);
    lemma_terminator_found(s, n - 1);
    assert(s.take(n) =~= encode(x));
}

proof fn lemma_terminator_none_of_high(s: Seq<u8>)
    requires
        forall|j: int| 0 <= j < s.len() ==> s[j] >= 128,
    ensures
        terminator(s) == None::<int>,
    decreases s.len(),
{
    if s.len() > 0 {
        lemma_terminator_none_of_high(s.skip(1));
    }
}

/// Law: a strict prefix of an encoding never contains a terminator, so
/// reading it reports `NotEnoughData`.
pub proof fn lemma_truncated(x: u64, n: int)
    requires
        0 <= n < encode(x).len(),
    ensures
        terminator(encode(x).take(n)) == None::<int>,
        encode(x).take(n).len() < 10,
        read_spec(encode(x).take(n)) == Err::<(u64, int), Error>(Error::NotEnoughData),
{
    lemma_encode_props(x);
    lemma_terminator_none_of_high(encode(x).take(n));
}

} // verus!
