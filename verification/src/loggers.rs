//! An in-memory log sink: diagnostic lines are buffered during a
//! raw-terminal session, where immediate console output would corrupt the
//! display, and handed back in one piece once the terminal is restored.

use vstd::prelude::*;

verus! {

/// A log sink that defers output: lines accumulate in an owned byte buffer
/// until the caller drains it. The printing itself belongs to the binary.
pub struct DeferredLogger {
    buf: Vec<u8>,
}

impl DeferredLogger {
    /// Everything logged so far, newline-terminated line by line.
    pub closed spec fn buffered(&self) -> Seq<u8> {
        self.buf@
    }

    /// Creates a sink with nothing buffered yet.
    pub fn new() -> (r: Self)
        ensures
            r.buffered() == Seq::<u8>::empty(),
    {
        let r = Self { buf: Vec::new() };
        proof {
            assert(r.buffered() =~= Seq::<u8>::empty());
        }
        r
    }

    /// Appends one diagnostic line, terminated with a newline byte.
    pub fn log_line(&mut self, line: &[u8])
        ensures
            final(self).buffered() == old(self).buffered() + line@ + seq![10u8],
    {
        let mut i: usize = 0;
        while i < line.len()
            invariant
                0 <= i <= line.len(),
                self.buf@ == old(self).buf@ + line@.subrange(0, i as int),
            decreases line.len() - i,
        {
            self.buf.push(line[i]);
            proof {
                assert(line@.subrange(0, i + 1) =~= line@.subrange(0, i as int) + seq![line@[i as int]]);
            }
            i = i + 1;
        }
        self.buf.push(10u8);
        proof {
            assert(line@.subrange(0, line@.len() as int) =~= line@);
            assert(self.buf@ =~= old(self).buf@ + line@ + seq![10u8]);
        }
    }

    /// Drains the buffer: returns everything logged so far and leaves the
    /// sink empty, ready for the next session.
    pub fn flush(&mut self) -> (r: Vec<u8>)
        ensures
            r@ == old(self).buffered(),
            final(self).buffered() == Seq::<u8>::empty(),
    {
        let mut out = Vec::new();
        core::mem::swap(&mut out, &mut self.buf);
        proof {
            assert(self.buffered() =~= Seq::<u8>::empty());
        }
        out
    }
}

} // verus!
