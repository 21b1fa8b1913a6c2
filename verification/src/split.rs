//! Splitting a byte stream into delimiter-separated segments.
//!
//! The splitter buffers whatever the reader has produced so far; polling
//! it yields the next segment as soon as its delimiter has arrived, and
//! the final unterminated segment — if any — once the reader reports end
//! of stream.

use vstd::prelude::*;
use crate::poll::Poll;

verus! {

/// The first position of `b` in `s`, or -1.
pub open spec fn spec_find_byte(s: Seq<u8>, b: u8) -> int
    decreases s.len(),
{
    if s.len() == 0 {
        -1
    } else if s[0] == b {
        0
    } else {
        let rest = spec_find_byte(s.skip(1), b);
        if rest == -1 {
            -1
        } else {
            rest + 1
        }
    }
}

/// Where the first position lands: on a hit the byte matches and nothing
/// before it does; on a miss nothing matches at all.
pub proof fn lemma_find_byte(s: Seq<u8>, b: u8)
    ensures
        spec_find_byte(s, b) >= 0 ==> {
            &&& spec_find_byte(s, b) < s.len()
            &&& s[spec_find_byte(s, b)] == b
            &&& forall|j: int| 0 <= j < spec_find_byte(s, b) ==> s[j] != b
        },
        spec_find_byte(s, b) == -1 ==> forall|j: int| 0 <= j < s.len() ==> s[j] != b,
        spec_find_byte(s, b) >= 0 || spec_find_byte(s, b) == -1,
    decreases s.len(),
{
    if s.len() == 0 {
    } else if s[0] == b {
    } else {
        lemma_find_byte(s.skip(1), b);
        assert forall|j: int| 1 <= j < s.len() implies s[j] == s.skip(1)[j - 1] by {}
        if spec_find_byte(s, b) == -1 {
            assert forall|j: int| 0 <= j < s.len() implies s[j] != b by {
                if j > 0 {
                    assert(s.skip(1)[j - 1] == s[j]);
                }
            }
        } else {
            let f = spec_find_byte(s.skip(1), b);
            assert(s[f + 1] == s.skip(1)[f]);
            assert forall|j: int| 0 <= j < f + 1 implies s[j] != b by {
                if j > 0 {
                    assert(s.skip(1)[j - 1] == s[j]);
                }
            }
        }
    }
}

/// A copy of `v[from..to]`.
fn copy_range(v: &Vec<u8>, from: usize, to: usize) -> (r: Vec<u8>)
    requires
        from <= to <= v@.len(),
    ensures
        r@ == v@.subrange(from as int, to as int),
{
    let mut r: Vec<u8> = Vec::new();
    let mut i: usize = from;
    while i < to
        invariant
            from <= i <= to <= v@.len(),
            r@ =~= v@.subrange(from as int, i as int),
        decreases to - i,
    {
        r.push(v[i]);
        proof {
            assert(v@.subrange(from as int, i + 1)
                =~= v@.subrange(from as int, i as int).push(v@[i as int]));
        }
        i = i + 1;
    }
    proof {
        assert(r@ =~= v@.subrange(from as int, to as int));
    }
    r
}

/// Splits a byte stream at a delimiter.
#[derive(Debug)]
pub struct Split {
    buf: Vec<u8>,
    delim: u8,
}

/// A splitter for segments ending in `delim`, with nothing buffered yet.
pub fn split(delim: u8) -> (s: Split)
    ensures
        s.spec_buf() =~= Seq::<u8>::empty(),
        s.spec_delim() == delim,
{
    Split { buf: Vec::new(), delim }
}

impl Split {
    /// The bytes read but not yet yielded.
    pub closed spec fn spec_buf(self) -> Seq<u8> {
        self.buf@
    }

    /// The delimiter segments end in.
    pub closed spec fn spec_delim(self) -> u8 {
        self.delim
    }

    /// Buffer more bytes from the reader.
    pub fn feed(&mut self, data: &Vec<u8>)
        ensures
            final(self).spec_buf() == old(self).spec_buf() + data@,
            final(self).spec_delim() == old(self).spec_delim(),
    {
        let n = data.len();
        let mut i: usize = 0;
        while i < n
            invariant
                n == data.len(),
                i <= n,
                self.delim == old(self).spec_delim(),
                self.buf@ =~= old(self).spec_buf() + data@.take(i as int),
            decreases n - i,
        {
            self.buf.push(data[i]);
            proof {
                assert(old(self).spec_buf() + data@.take(i + 1)
                    =~= (old(self).spec_buf() + data@.take(i as int)).push(data@[i as int]));
            }
            i = i + 1;
        }
        proof {
            assert(old(self).spec_buf() + data@.take(n as int) =~= old(self).spec_buf() + data@);
        }
    }

    /// The next segment, if its end has arrived.
    ///
    /// A buffered delimiter ends a segment, which is yielded without it.
    /// With no delimiter buffered, the splitter is pending until the
    /// reader reports end of stream; at end of stream the remaining
    /// bytes form the last segment, and an empty buffer yields `None` —
    /// the stream is exhausted.
    pub fn poll_next_segment(&mut self, at_eof: bool) -> (r: Poll<Option<Vec<u8>>>)
        ensures
            final(self).spec_delim() == old(self).spec_delim(),
            ({
                let f = spec_find_byte(old(self).spec_buf(), old(self).spec_delim());
                &&& f >= 0 ==> {
                    &&& (r matches Poll::Ready(Some(seg))
                        && seg@ == old(self).spec_buf().take(f))
                    &&& final(self).spec_buf() == old(self).spec_buf().skip(f + 1)
                }
                &&& f < 0 && !at_eof ==> {
                    &&& r is Pending
                    &&& final(self).spec_buf() == old(self).spec_buf()
                }
                &&& f < 0 && at_eof && old(self).spec_buf().len() == 0 ==> {
                    &&& r == Poll::<Option<Vec<u8>>>::Ready(None)
                    &&& final(self).spec_buf() == old(self).spec_buf()
                }
                &&& f < 0 && at_eof && old(self).spec_buf().len() > 0 ==> {
                    &&& (r matches Poll::Ready(Some(seg)) && seg@ == old(self).spec_buf())
                    &&& final(self).spec_buf().len() == 0
                }
            }),
    {
        proof {
            lemma_find_byte(self.buf@, self.delim);
        }
        let n = self.buf.len();
        let mut i: usize = 0;
        while i < n
            invariant
                n == self.buf.len(),
                i <= n,
                *self == *old(self),
                forall|j: int| 0 <= j < i ==> self.buf@[j] != self.delim,
            decreases n - i,
        {
            if self.buf[i] == self.delim {
                proof {
                    lemma_find_byte(self.buf@, self.delim);
                    assert(spec_find_byte(self.buf@, self.delim) == i) by {
                        lemma_find_byte_at(self.buf@, self.delim, i as int);
                    }
                }
                let seg = copy_range(&self.buf, 0, i);
                let rest = copy_range(&self.buf, i + 1, n);
                self.buf = rest;
                proof {
                    assert(seg@ =~= old(self).spec_buf().take(i as int));
                    assert(self.buf@ =~= old(self).spec_buf().skip(i + 1));
                }
                return Poll::Ready(Some(seg));
            }
            i = i + 1;
        }
        proof {
            lemma_find_byte_none(self.buf@, self.delim);
        }
        if !at_eof {
            return Poll::Pending;
        }
        if self.buf.len() == 0 {
            return Poll::Ready(None);
        }
        let seg = copy_range(&self.buf, 0, n);
        self.buf = Vec::new();
        proof {
            assert(seg@ =~= old(self).spec_buf());
        }
        Poll::Ready(Some(seg))
    }
}

/// If nothing before `i` is the byte and position `i` is, the first
/// position is `i`.
proof fn lemma_find_byte_at(s: Seq<u8>, b: u8, i: int)
    requires
        0 <= i < s.len(),
        s[i] == b,
        forall|j: int| 0 <= j < i ==> s[j] != b,
    ensures
        spec_find_byte(s, b) == i,
    decreases i,
{
    if i == 0 {
    } else {
        assert(forall|j: int| 0 <= j < i - 1 ==> s.skip(1)[j] == s[j + 1]);
        lemma_find_byte_at(s.skip(1), b, i - 1);
    }
}

/// If no position holds the byte, there is no first position.
proof fn lemma_find_byte_none(s: Seq<u8>, b: u8)
    requires
        forall|j: int| 0 <= j < s.len() ==> s[j] != b,
    ensures
        spec_find_byte(s, b) == -1,
    decreases s.len(),
{
    if s.len() == 0 {
    } else {
        assert(forall|j: int| 0 <= j < s.skip(1).len() ==> s.skip(1)[j] == s[j + 1]);
        lemma_find_byte_none(s.skip(1), b);
    }
}

} // verus!
