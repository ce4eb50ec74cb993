//! The line codec: splits a raw byte stream into newline-delimited frames,
//! stripping the delimiter, and refuses a frame longer than a configured
//! maximum. Bytes left without a delimiter when the stream ends are simply
//! dropped with the decoder, never delivered as a frame.

use vstd::prelude::*;

verus! {

/// The newline byte that ends a frame.
pub const FRAME_DELIMITER: u8 = 10;

/// A frame may hold at most this many bytes before its delimiter.
pub const MAX_FRAME_LEN: usize = 1024;

/// What feeding bytes to a decoder leaves behind: the complete frames in
/// order, the bytes still waiting for a delimiter, and whether a frame grew
/// beyond the maximum. After an overflow no further byte is consumed.
pub open spec fn spec_feed(buf: Seq<u8>, input: Seq<u8>, max: nat) -> (Seq<Seq<u8>>, Seq<u8>, bool)
    decreases input.len(),
{
    if input.len() == 0 {
        (Seq::empty(), buf, false)
    } else if input.first() == FRAME_DELIMITER {
        let r = spec_feed(Seq::empty(), input.drop_first(), max);
        (seq![buf] + r.0, r.1, r.2)
    } else if buf.len() < max {
        spec_feed(buf.push(input.first()), input.drop_first(), max)
    } else {
        (Seq::empty(), buf, true)
    }
}

/// One connection's decoder: the configured maximum frame length and the
/// bytes of the frame still being read.
pub struct LineDecoder {
    max_len: usize,
    buf: Vec<u8>,
}

impl View for LineDecoder {
    type V = Seq<u8>;

    closed spec fn view(&self) -> Seq<u8> {
        self.buf@
    }
}

impl LineDecoder {
    /// The configured maximum frame length.
    pub closed spec fn spec_max(&self) -> nat {
        self.max_len as nat
    }

    /// The pending frame never outgrows the maximum.
    pub open spec fn wf(&self) -> bool {
        self@.len() <= self.spec_max()
    }

    /// A fresh decoder with nothing pending.
    pub fn new(max_len: usize) -> (r: LineDecoder)
        ensures
            r@ == Seq::<u8>::empty(),
            r.spec_max() == max_len,
            r.wf(),
    {
        LineDecoder { max_len, buf: Vec::new() }
    }

    /// Consumes a chunk of the byte stream and hands back the frames it
    /// completed, in order, with `true` when a frame overflowed the maximum;
    /// from that point on the connection is a protocol error and the rest of
    /// the chunk is not consumed.
    pub fn feed(&mut self, chunk: &[u8]) -> (r: (Vec<Vec<u8>>, bool))
        requires
            old(self).wf(),
        ensures
            ({
                let f = spec_feed(old(self)@, chunk@, old(self).spec_max());
                &&& r.0.deep_view() == f.0
                &&& final(self)@ == f.1
                &&& r.1 == f.2
                &&& final(self).spec_max() == old(self).spec_max()
                &&& final(self).wf()
            }),
    {
        let ghost full_result = spec_feed(old(self)@, chunk@, old(self).spec_max());
        let n = chunk.len();
        let mut frames: Vec<Vec<u8>> = Vec::new();
        let mut i: usize = 0;
        proof {
            assert(chunk@.skip(0) =~= chunk@);
            assert(full_result.0 =~~= frames.deep_view() + full_result.0);
        }
        while i < n
            invariant
                self.max_len == old(self).max_len,
                self.buf@.len() <= self.max_len,
                n == chunk@.len(),
                0 <= i <= n,
                full_result == spec_feed(old(self)@, chunk@, old(self).spec_max()),
                ({
                    let rest = spec_feed(self.buf@, chunk@.skip(i as int), self.max_len as nat);
                    &&& full_result.0 == frames.deep_view() + rest.0
                    &&& full_result.1 == rest.1
                    &&& full_result.2 == rest.2
                }),
            decreases n - i,
        {
            proof {
                let remaining = chunk@.skip(i as int);
                assert(remaining.first() == chunk@[i as int]);
                assert(remaining.drop_first() =~= chunk@.skip(i as int + 1));
            }
            let b = chunk[i];
            if b == FRAME_DELIMITER {
                let ghost old_frames = frames.deep_view();
                let mut done: Vec<u8> = Vec::new();
                core::mem::swap(&mut done, &mut self.buf);
                let ghost done_view = done@;
                frames.push(done);
                proof {
                    let rest = spec_feed(self.buf@, chunk@.skip(i as int + 1), self.max_len as nat);
                    assert(frames.deep_view() =~~= old_frames.push(done_view));
                    assert(frames.deep_view() + rest.0 =~~= old_frames + (seq![done_view] + rest.0));
                }
            } else if self.buf.len() < self.max_len {
                self.buf.push(b);
            } else {
                return (frames, true);
            }
            i = i + 1;
        }
        proof {
            assert(chunk@.skip(n as int) =~= Seq::<u8>::empty());
            assert(full_result.0 =~~= frames.deep_view() + Seq::<Seq<u8>>::empty());
        }
        (frames, false)
    }
}

/// Serializes one outgoing frame: the text followed by exactly one delimiter.
pub fn encode_frame(line: &String) -> (r: String)
    ensures
        r@ == line@ + "\n"@,
{
    let mut r = line.clone();
    r.append("\n");
    r
}

} // verus!
