use vstd::prelude::*;

use crate::error::ClientErrors;

verus! {

/// Line feed: the byte that ends a protocol line.
pub const LF: u8 = 10;

/// Carriage return: dropped when it stands right before the line feed.
pub const CR: u8 = 13;

/// The line without one carriage return at its end.
pub open spec fn strip_cr(line: Seq<u8>) -> Seq<u8> {
    if line.len() > 0 && line.last() == CR {
        line.drop_last()
    } else {
        line
    }
}

/// What the framer emits for a line: its bytes, or the oversized-line error.
pub open spec fn frame_view(f: Result<Vec<u8>, ClientErrors>) -> Result<Seq<u8>, ClientErrors> {
    match f {
        Ok(line) => Ok(line@),
        Err(e) => Err(e),
    }
}

pub open spec fn frames_view(fs: Seq<Result<Vec<u8>, ClientErrors>>) -> Seq<Result<Seq<u8>, ClientErrors>> {
    fs.map_values(|f: Result<Vec<u8>, ClientErrors>| frame_view(f))
}

/// The framer on one byte. Its state is the unfinished line and whether the
/// rest of an oversized line is being skipped; a line feed ends a line (or
/// the skipping), and a line that would grow past `max_len` bytes, not
/// counting a carriage return at its end, is dropped and reported once.
pub open spec fn frame_step(max_len: nat, st: (Seq<u8>, bool), b: u8) -> ((Seq<u8>, bool), Seq<Result<Seq<u8>, ClientErrors>>) {
    if b == LF {
        if st.1 {
            ((seq![], false), seq![])
        } else {
            ((seq![], false), seq![Ok(strip_cr(st.0))])
        }
    } else if st.1 {
        (st, seq![])
    } else if strip_cr(st.0.push(b)).len() > max_len {
        ((seq![], true), seq![Err(ClientErrors::OversizedLineError)])
    } else {
        ((st.0.push(b), false), seq![])
    }
}

/// The framer on a run of bytes, one after the other: the state it ends in
/// and everything it emits, in order.
pub open spec fn frame_bytes(max_len: nat, st: (Seq<u8>, bool), bytes: Seq<u8>) -> ((Seq<u8>, bool), Seq<Result<Seq<u8>, ClientErrors>>)
    decreases bytes.len(),
{
    if bytes.len() == 0 {
        (st, seq![])
    } else {
        let before = frame_bytes(max_len, st, bytes.drop_last());
        let last = frame_step(max_len, before.0, bytes.last());
        (last.0, before.1 + last.1)
    }
}

/// Framing does not depend on where the stream was cut into reads: feeding
/// `a` and then `b` ends in the same state, having emitted the same lines in
/// the same order, as feeding `a + b` at once.
pub proof fn lemma_frame_chunks(max_len: nat, st: (Seq<u8>, bool), a: Seq<u8>, b: Seq<u8>)
    ensures
        ({
            let first = frame_bytes(max_len, st, a);
            let second = frame_bytes(max_len, first.0, b);
            frame_bytes(max_len, st, a + b) == (second.0, first.1 + second.1)
        }),
    decreases b.len(),
{
    let first = frame_bytes(max_len, st, a);
    if b.len() == 0 {
        assert(a + b =~= a);
        assert(first.1 + seq![] =~= first.1);
    } else {
        lemma_frame_chunks(max_len, st, a, b.drop_last());
        assert((a + b).drop_last() =~= a + b.drop_last());
        assert((a + b).last() == b.last());
        let mid = frame_bytes(max_len, first.0, b.drop_last());
        let step = frame_step(max_len, mid.0, b.last());
        assert(first.1 + mid.1 + step.1 =~= first.1 + (mid.1 + step.1));
    }
}

/// Cuts a byte stream into protocol lines, however the stream arrives.
pub struct LineFramer {
    buffer: Vec<u8>,
    skipping: bool,
    max_len: usize,
}

impl LineFramer {
    /// The unfinished line, and whether an oversized line is being skipped.
    pub closed spec fn state(&self) -> (Seq<u8>, bool) {
        (self.buffer@, self.skipping)
    }

    /// The longest line that is accepted, in bytes, not counting its line
    /// feed and the carriage return before it.
    pub closed spec fn max_len(&self) -> nat {
        self.max_len as nat
    }

    /// A framer with nothing buffered that accepts lines of up to `max_len` bytes.
    pub fn new(max_len: usize) -> (r: LineFramer)
        ensures
            r.state() == (Seq::<u8>::empty(), false),
            r.max_len() == max_len,
    {
        LineFramer { buffer: Vec::new(), skipping: false, max_len }
    }

    /// Appends `bytes` to the stream and returns every line they complete,
    /// in order, without its line feed and carriage return; an oversized line
    /// gives `Err(OversizedLineError)` in its place. What follows the last
    /// line feed stays buffered for the next call.
    pub fn feed(&mut self, bytes: &[u8]) -> (out: Vec<Result<Vec<u8>, ClientErrors>>)
        ensures
            final(self).max_len() == old(self).max_len(),
            (final(self).state(), frames_view(out@)) == frame_bytes(
                old(self).max_len(),
                old(self).state(),
                bytes@,
            ),
    {
        let ghost start = self.state();
        let mut out: Vec<Result<Vec<u8>, ClientErrors>> = Vec::new();
        let mut i: usize = 0;
        assert(bytes@.subrange(0, 0) =~= Seq::<u8>::empty());
        assert(frames_view(out@) =~= Seq::<Result<Seq<u8>, ClientErrors>>::empty());
        while i < bytes.len()
            invariant
                0 <= i <= bytes@.len(),
                self.max_len == old(self).max_len,
                (self.state(), frames_view(out@)) == frame_bytes(
                    self.max_len as nat,
                    start,
                    bytes@.subrange(0, i as int),
                ),
            decreases bytes@.len() - i,
        {
            let b: u8 = bytes[i];
            let ghost prev_out = frames_view(out@);
            let ghost prev_state = self.state();
            let ghost step = frame_step(self.max_len as nat, prev_state, b);
            assert(b == CR ==> prev_state.0.push(b).drop_last() =~= prev_state.0);
            if b == LF {
                if self.skipping {
                    self.buffer.clear();
                    self.skipping = false;
                } else {
                    let mut line: Vec<u8> = Vec::new();
                    std::mem::swap(&mut line, &mut self.buffer);
                    if line.len() > 0 && line[line.len() - 1] == CR {
                        line.pop();
                    }
                    assert(line@ =~= strip_cr(prev_state.0));
                    out.push(Ok(line));
                }
                assert(self.buffer@ =~= Seq::<u8>::empty());
            } else if self.skipping {
            } else if (b == CR && self.buffer.len() > self.max_len) || (b != CR
                && self.buffer.len() >= self.max_len) {
                self.buffer.clear();
                self.skipping = true;
                assert(self.buffer@ =~= Seq::<u8>::empty());
                out.push(Err(ClientErrors::OversizedLineError));
            } else {
                self.buffer.push(b);
            }
            assert(frames_view(out@) =~= prev_out + step.1);
            assert(bytes@.subrange(0, i + 1).drop_last() =~= bytes@.subrange(0, i as int));
            i = i + 1;
        }
        assert(bytes@.subrange(0, i as int) =~= bytes@);
        out
    }
}

} // verus!
