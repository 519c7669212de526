//! Frame decoding and outbound line termination.
//!
//! A frame is one complete protocol line: the bytes up to and including the
//! two-byte terminator (carriage return, line feed). The decoder accumulates
//! arbitrary reads from the byte stream and emits the complete frames they
//! contain, in arrival order; unterminated bytes stay buffered until the
//! stream ends, when they are flushed as one final frame.
use vstd::prelude::*;

verus! {

/// The two-byte terminator starts at index `i` of `s`.
pub open spec fn crlf_at(s: Seq<u8>, i: int) -> bool {
    0 <= i && i + 2 <= s.len() && s[i] == 13 && s[i + 1] == 10
}

/// `s` contains the two-byte terminator somewhere.
pub open spec fn has_crlf(s: Seq<u8>) -> bool {
    exists|i: int| crlf_at(s, i)
}

/// `f` is one complete frame: it ends with the terminator and contains no
/// earlier terminator.
pub open spec fn is_frame(f: Seq<u8>) -> bool {
    &&& f.len() >= 2
    &&& f[f.len() - 2] == 13
    &&& f[f.len() - 1] == 10
    &&& forall|i: int| 0 <= i < f.len() - 2 ==> !crlf_at(f, i)
}

/// The views of a sequence of frame buffers.
pub open spec fn frame_views(frames: Seq<Vec<u8>>) -> Seq<Seq<u8>> {
    frames.map_values(|f: Vec<u8>| f@)
}

/// All bytes of a sequence of frame buffers, in order.
pub open spec fn frames_bytes(frames: Seq<Vec<u8>>) -> Seq<u8> {
    frame_views(frames).flatten()
}

proof fn lemma_frames_bytes_empty()
    ensures
        frames_bytes(Seq::<Vec<u8>>::empty()) == Seq::<u8>::empty(),
{
    assert(frame_views(Seq::<Vec<u8>>::empty()) =~= Seq::<Seq<u8>>::empty());
    assert(frames_bytes(Seq::<Vec<u8>>::empty()) =~= Seq::<u8>::empty());
}

proof fn lemma_frames_bytes_push(frames: Seq<Vec<u8>>, f: Vec<u8>)
    ensures
        frames_bytes(frames.push(f)) == frames_bytes(frames) + f@,
{
    assert(frame_views(frames.push(f)) =~= frame_views(frames).push(f@));
    frame_views(frames).lemma_flatten_push(f@);
}

/// The stateful accumulator that turns a byte stream into frames.
pub struct FrameDecoder {
    buffer: Vec<u8>,
}

impl View for FrameDecoder {
    type V = Seq<u8>;

    /// The bytes received but not yet emitted as part of a frame.
    closed spec fn view(&self) -> Seq<u8> {
        self.buffer@
    }
}

impl FrameDecoder {
    /// Between calls the buffer holds no complete terminator: every
    /// terminated line has already been emitted.
    pub open spec fn wf(&self) -> bool {
        !has_crlf(self@)
    }

    /// An empty decoder.
    pub fn new() -> (r: FrameDecoder)
        ensures
            r@ == Seq::<u8>::empty(),
            r.wf(),
    {
        FrameDecoder { buffer: Vec::new() }
    }

    /// First position of the terminator in `v`, if any.
    fn find_crlf(v: &Vec<u8>) -> (r: Option<usize>)
        ensures
            match r {
                Some(i) => crlf_at(v@, i as int) && (forall|j: int| 0 <= j < i ==> !crlf_at(v@, j)),
                None => !has_crlf(v@),
            },
    {
        let n = v.len();
        if n < 2 {
            return None;
        }
        let mut i: usize = 0;
        while i < n - 1
            invariant
                2 <= n,
                n == v@.len(),
                i <= n - 1,
                forall|j: int| 0 <= j < i ==> !crlf_at(v@, j),
            decreases n - i,
        {
            if v[i] == 13 && v[i + 1] == 10 {
                return Some(i);
            }
            i = i + 1;
        }
        None
    }

    /// Append `bytes` to the buffer and extract every complete frame now
    /// present, in order. The returned frames followed by the bytes left in
    /// the buffer are exactly the old buffer followed by `bytes`, each frame
    /// ends with the terminator and contains no earlier one, and the
    /// remaining buffer contains none.
    pub fn feed(&mut self, bytes: &[u8]) -> (frames: Vec<Vec<u8>>)
        requires
            old(self).wf(),
        ensures
            final(self).wf(),
            frames_bytes(frames@) + final(self)@ == old(self)@ + bytes@,
            forall|k: int| 0 <= k < frames@.len() ==> is_frame(#[trigger] frames@[k]@),
    {
        self.buffer.extend_from_slice(bytes);
        proof {
            assert(self.buffer@ =~= old(self)@ + bytes@);
        }
        let ghost total = self.buffer@;
        let mut frames: Vec<Vec<u8>> = Vec::new();
        proof {
            lemma_frames_bytes_empty();
            assert(frames_bytes(frames@) + self.buffer@ =~= total);
        }
        loop
            invariant
                frames_bytes(frames@) + self.buffer@ == total,
                forall|k: int| 0 <= k < frames@.len() ==> is_frame(#[trigger] frames@[k]@),
            ensures
                frames_bytes(frames@) + self.buffer@ == total,
                forall|k: int| 0 <= k < frames@.len() ==> is_frame(#[trigger] frames@[k]@),
                !has_crlf(self.buffer@),
            decreases self.buffer@.len(),
        {
            let ghost b = self.buffer@;
            let blen = self.buffer.len();
            match Self::find_crlf(&self.buffer) {
                Some(pos) => {
                    proof {
                        assert(pos + 2 <= blen);
                    }
                    let mut rest = self.buffer.split_off(pos + 2);
                    core::mem::swap(&mut self.buffer, &mut rest);
                    proof {
                        assert(rest@ =~= b.subrange(0, pos + 2));
                        assert(self.buffer@ =~= b.subrange(pos + 2, b.len() as int));
                        assert(is_frame(rest@)) by {
                            assert(rest@[pos as int] == b[pos as int]);
                            assert(rest@[pos + 1] == b[pos + 1]);
                            assert forall|i: int| 0 <= i < rest@.len() - 2 implies !crlf_at(
                                rest@,
                                i,
                            ) by {
                                assert(!crlf_at(b, i));
                                assert(rest@[i] == b[i]);
                                assert(rest@[i + 1] == b[i + 1]);
                            }
                        }
                        lemma_frames_bytes_push(frames@, rest);
                        assert(rest@ + self.buffer@ =~= b);
                        assert((frames_bytes(frames@) + rest@) + self.buffer@ =~= frames_bytes(
                            frames@,
                        ) + b);
                    }
                    frames.push(rest);
                },
                None => {
                    break;
                },
            }
        }
        frames
    }

    /// Flush the unterminated remainder at stream end: the buffered bytes as
    /// one final (unterminated) frame, or nothing when the buffer is empty.
    pub fn finish(&mut self) -> (r: Option<Vec<u8>>)
        ensures
            final(self)@ == Seq::<u8>::empty(),
            final(self).wf(),
            match r {
                Some(rem) => old(self)@.len() > 0 && rem@ == old(self)@,
                None => old(self)@.len() == 0,
            },
    {
        if self.buffer.is_empty() {
            None
        } else {
            let mut rem: Vec<u8> = Vec::new();
            core::mem::swap(&mut self.buffer, &mut rem);
            Some(rem)
        }
    }
}

/// A byte source that never contains the terminator yields no frames: any
/// decomposition of its bytes into complete frames and a terminator-free
/// remainder keeps every byte in the remainder, so stream end flushes them
/// all as one final frame.
pub proof fn lemma_no_terminator_no_frames(frames: Seq<Seq<u8>>, rest: Seq<u8>, all: Seq<u8>)
    requires
        frames.flatten() + rest == all,
        forall|k: int| 0 <= k < frames.len() ==> is_frame(#[trigger] frames[k]),
        !has_crlf(all),
    ensures
        frames.len() == 0,
        rest == all,
{
    if frames.len() > 0 {
        let f = frames.first();
        assert(is_frame(f));
        assert(frames.flatten() == f + frames.drop_first().flatten());
        assert(all == (f + frames.drop_first().flatten()) + rest);
        assert(crlf_at(all, f.len() - 2)) by {
            assert(all[f.len() - 2] == f[f.len() - 2]);
            assert(all[f.len() - 1] == f[f.len() - 1]);
        }
        assert(false);
    }
    assert(frames.flatten() =~= Seq::<u8>::empty());
    assert(rest =~= all);
}

/// `s` ends with the two-byte terminator.
pub open spec fn spec_ends_crlf(s: Seq<char>) -> bool {
    "\r\n"@.is_suffix_of(s)
}

/// `s` with the terminator appended when absent; a payload that already
/// carries it is left alone, so the terminator appears exactly once at the
/// end whatever the caller supplied.
pub open spec fn spec_with_crlf(s: Seq<char>) -> Seq<char> {
    if spec_ends_crlf(s) {
        s
    } else {
        s + "\r\n"@
    }
}

/// Append the line terminator to an outbound payload unless it is already
/// present.
pub fn ensure_crlf(data: String) -> (r: String)
    ensures
        r@ == spec_with_crlf(data@),
{
    proof {
        reveal_strlit("\r\n");
    }
    let n = data.as_str().unicode_len();
    if n >= 2 {
        let c1 = data.as_str().get_char(n - 2);
        let c2 = data.as_str().get_char(n - 1);
        if c1 == '\r' && c2 == '\n' {
            proof {
                assert(data@.subrange(n - 2, n as int) =~= "\r\n"@);
            }
            return data;
        }
        proof {
            assert(!spec_ends_crlf(data@)) by {
                if spec_ends_crlf(data@) {
                    assert(data@.subrange(n - 2, n as int)[0] == data@[n - 2]);
                    assert(data@.subrange(n - 2, n as int)[1] == data@[n - 1]);
                }
            }
        }
    }
    let mut out = data;
    out.append("\r\n");
    out
}

/// The bytes a run of the write task puts on the wire for the queued
/// payloads `p1 .. pN`, in queue order: each payload's terminated line,
/// concatenated.
pub open spec fn terminated_lines(payloads: Seq<Seq<char>>) -> Seq<char>
    decreases payloads.len(),
{
    if payloads.len() == 0 {
        Seq::empty()
    } else {
        spec_with_crlf(payloads.first()) + terminated_lines(payloads.drop_first())
    }
}

/// Each queued payload reaches the wire exactly once, terminated exactly
/// once, and in queue order: when the lines written are, one for one, what
/// the write step makes of each payload, their concatenation is the
/// terminated payloads in that order, with nothing lost, duplicated or
/// reordered. That the queue hands the payloads over in enqueue order is
/// the shell's channel's promise, not this crate's.
pub proof fn lemma_writes_in_queue_order(payloads: Seq<Seq<char>>, lines: Seq<Seq<char>>)
    requires
        lines.len() == payloads.len(),
        forall|i: int| 0 <= i < payloads.len() ==> lines[i] == spec_with_crlf(#[trigger] payloads[i]),
    ensures
        lines.flatten() == terminated_lines(payloads),
    decreases payloads.len(),
{
    if payloads.len() == 0 {
        assert(lines.flatten() =~= Seq::<char>::empty());
    } else {
        assert(lines.first() == spec_with_crlf(payloads[0]));
        assert(forall|i: int|
            0 <= i < payloads.drop_first().len() ==> lines.drop_first()[i] == spec_with_crlf(
                #[trigger] payloads.drop_first()[i],
            )) by {
            assert(forall|i: int|
                0 <= i < payloads.len() - 1 ==> #[trigger] payloads.drop_first()[i]
                    == payloads[i + 1] && lines.drop_first()[i] == lines[i + 1]);
        }
        lemma_writes_in_queue_order(payloads.drop_first(), lines.drop_first());
    }
}

} // verus!
