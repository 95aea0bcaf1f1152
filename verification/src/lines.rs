use vstd::prelude::*;

use crate::bytes::{copy_range, push_all, CR, LF};

verus! {

// The streaming processor reads its input as raw bytes and hands the
// rewriter one terminator-stripped line at a time. The splitter holds the
// bytes read so far but not yet consumed; a line ends at a line feed, and a
// carriage return immediately before the line feed is dropped with it. The
// final unterminated line, if any, is yielded as it stands.

/// The position of the first line feed at or after `i`, or the length.
pub open spec fn first_lf(s: Seq<u8>, i: int) -> int
    decreases s.len() - i,
{
    if i < 0 || i >= s.len() {
        s.len() as int
    } else if s[i] == LF {
        i
    } else {
        first_lf(s, i + 1)
    }
}

/// `s` without one trailing carriage return, if it ends with one.
pub open spec fn strip_cr(s: Seq<u8>) -> Seq<u8> {
    if s.len() > 0 && s[s.len() - 1] == CR {
        s.drop_last()
    } else {
        s
    }
}

/// Buffers input bytes and yields complete lines, terminators stripped.
pub struct LineSplitter {
    buf: Vec<u8>,
}

impl View for LineSplitter {
    type V = Seq<u8>;

    closed spec fn view(&self) -> Seq<u8> {
        self.buf@
    }
}

impl LineSplitter {
    /// A splitter holding no bytes yet.
    pub fn new() -> (r: Self)
        ensures
            r@ == Seq::<u8>::empty(),
    {
        LineSplitter { buf: Vec::new() }
    }

    /// Hands the splitter the next bytes read from the input.
    pub fn push_chunk(&mut self, chunk: &Vec<u8>)
        ensures
            final(self)@ == old(self)@ + chunk@,
    {
        push_all(&mut self.buf, chunk);
    }

    /// Takes the first complete line out of the buffer: the bytes before
    /// the first line feed, a carriage return just before it dropped too.
    /// None when no line feed is buffered.
    pub fn next_line(&mut self) -> (r: Option<Vec<u8>>)
        ensures
            (r is Some) == (first_lf(old(self)@, 0) < old(self)@.len()),
            r is Some ==> (r->Some_0)@ == strip_cr(
                old(self)@.subrange(0, first_lf(old(self)@, 0)),
            ),
            r is Some ==> final(self)@ == old(self)@.subrange(
                first_lf(old(self)@, 0) + 1,
                old(self)@.len() as int,
            ),
            r is None ==> final(self)@ == old(self)@,
    {
        let n = self.buf.len();
        let mut j: usize = 0;
        while j < n
            invariant
                0 <= j <= n,
                n == self.buf@.len(),
                first_lf(self.buf@, 0) == first_lf(self.buf@, j as int),
                self.buf@ == old(self)@,
            decreases n - j,
        {
            if self.buf[j] == LF {
                let end = if j > 0 && self.buf[j - 1] == CR {
                    j - 1
                } else {
                    j
                };
                let line = copy_range(&self.buf, 0, end);
                proof {
                    let whole = self.buf@.subrange(0, j as int);
                    if j > 0 && self.buf@[j - 1] == CR {
                        assert(whole.drop_last() =~= self.buf@.subrange(0, j - 1));
                    }
                    assert(line@ =~= strip_cr(whole));
                }
                let rest = copy_range(&self.buf, j + 1, n);
                self.buf = rest;
                return Some(line);
            }
            j += 1;
        }
        None
    }

    /// Takes the final unterminated line, if the buffer still holds bytes.
    /// The splitter is empty afterwards.
    pub fn finish(&mut self) -> (r: Option<Vec<u8>>)
        ensures
            (r is Some) == (old(self)@.len() > 0),
            r is Some ==> (r->Some_0)@ == old(self)@,
            final(self)@ == Seq::<u8>::empty(),
    {
        if self.buf.len() == 0 {
            return None;
        }
        let line = copy_range(&self.buf, 0, self.buf.len());
        proof {
            assert(line@ =~= old(self)@);
        }
        self.buf = Vec::new();
        Some(line)
    }
}

} // verus!
