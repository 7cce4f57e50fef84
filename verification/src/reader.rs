//! The chunked sample reader.
//!
//! Samples are delivered in windows of `chunk_len` samples. Each window but
//! the first opens with the last `overlap_len` samples of the window before
//! it, so that nothing is lost to the alignment of the windows. When the
//! source runs dry, what has been gathered for the next window is emitted as
//! a last, short window, be it only the samples carried over; nothing is
//! carried over from a short window.

use crate::ranges::SampleRange;
use vstd::prelude::*;

verus! {

/// A window of consecutive samples of the stream.
#[derive(Debug)]
pub struct Chunk {
    /// Absolute index in the stream of the first sample of the window.
    pub start: u64,
    /// The samples of the window, those carried over first.
    pub samples: Vec<i16>,
    /// How many leading samples repeat the end of the window before.
    pub carried: usize,
}

impl Chunk {
    /// The indices of the stream that the window holds, as a range. The end
    /// stops at the largest index that can be written down.
    pub open spec fn spec_extent(&self) -> SampleRange {
        SampleRange {
            start_sample: self.start,
            end_sample: if self.start + self.samples@.len() <= u64::MAX {
                (self.start + self.samples@.len()) as u64
            } else {
                u64::MAX
            },
        }
    }

    /// The indices of the stream that the window holds, as a range.
    pub fn extent(&self) -> (r: SampleRange)
        ensures
            r == self.spec_extent(),
    {
        let len = self.samples.len() as u64;
        let end = if len <= u64::MAX - self.start {
            self.start + len
        } else {
            u64::MAX
        };
        SampleRange { start_sample: self.start, end_sample: end }
    }
}

/// Distance between the starts of two consecutive windows.
pub open spec fn stride(chunk_len: int, overlap_len: int) -> int {
    chunk_len - overlap_len
}

/// Index in the stream at which window `k` starts.
pub open spec fn chunk_start(k: int, chunk_len: int, overlap_len: int) -> int {
    k * stride(chunk_len, overlap_len)
}

/// Index in the stream of the first sample of window `k` that no window
/// before it holds.
pub open spec fn fresh_start(k: int, chunk_len: int, overlap_len: int) -> int {
    if k <= 0 {
        0
    } else {
        chunk_start(k, chunk_len, overlap_len) + overlap_len
    }
}

/// A stream of `stream_len` samples has a window `k`: the window starts
/// inside the stream, and the window before it, if there is one, is full.
pub open spec fn chunk_exists(k: int, stream_len: int, chunk_len: int, overlap_len: int) -> bool {
    &&& 0 <= k
    &&& chunk_start(k, chunk_len, overlap_len) < stream_len
    &&& fresh_start(k, chunk_len, overlap_len) <= stream_len
}

/// Index in a stream of `stream_len` samples one past the last sample of
/// window `k`.
pub open spec fn chunk_end(k: int, stream_len: int, chunk_len: int, overlap_len: int) -> int {
    if chunk_start(k, chunk_len, overlap_len) + chunk_len <= stream_len {
        chunk_start(k, chunk_len, overlap_len) + chunk_len
    } else {
        stream_len
    }
}

/// The samples of window `k` of a stream.
pub open spec fn chunk_of(stream: Seq<i16>, k: int, chunk_len: int, overlap_len: int) -> Seq<i16> {
    stream.subrange(
        chunk_start(k, chunk_len, overlap_len),
        chunk_end(k, stream.len() as int, chunk_len, overlap_len),
    )
}

/// The stream put together again from its windows: the first window whole,
/// every later one without its first `overlap_len` samples.
pub open spec fn reassembled(chunks: Seq<Seq<i16>>, overlap_len: int) -> Seq<i16>
    decreases chunks.len(),
{
    if chunks.len() == 0 {
        Seq::empty()
    } else if chunks.len() == 1 {
        chunks[0]
    } else {
        reassembled(chunks.drop_last(), overlap_len) + chunks.last().skip(overlap_len)
    }
}

/// The samples of each window of a list.
pub open spec fn chunk_samples(chunks: Seq<Chunk>) -> Seq<Seq<i16>> {
    Seq::new(chunks.len(), |k: int| chunks[k].samples@)
}

/// The reader's state between two windows. The reader does not read: it says
/// how many fresh samples it wants, is handed what the source gave, and puts
/// the next window together.
#[derive(Debug)]
pub struct ChunkedReader {
    chunk_len: usize,
    overlap_len: usize,
    carry: Vec<i16>,
    position: u64,
    finished: bool,
}

impl ChunkedReader {
    /// Size of a full window.
    pub closed spec fn spec_chunk_len(&self) -> usize {
        self.chunk_len
    }

    /// Number of samples that a window repeats from the one before it.
    pub closed spec fn spec_overlap_len(&self) -> usize {
        self.overlap_len
    }

    /// The samples carried over into the next window.
    pub closed spec fn spec_carry(&self) -> Seq<i16> {
        self.carry@
    }

    /// Number of samples taken from the source so far.
    pub closed spec fn spec_position(&self) -> u64 {
        self.position
    }

    /// The source has run dry: no window follows.
    pub closed spec fn spec_finished(&self) -> bool {
        self.finished
    }

    /// Number of fresh samples that the next window can take.
    pub open spec fn spec_wanted(&self) -> int {
        if self.spec_finished() {
            0
        } else {
            self.spec_chunk_len() - self.spec_carry().len()
        }
    }

    /// What holds of every reader: the overlap is shorter than a window, and
    /// the carry-over is `overlap_len` samples long between two windows and
    /// empty before the first and after the last.
    #[verifier::type_invariant]
    pub closed spec fn is_consistent(&self) -> bool {
        &&& self.overlap_len < self.chunk_len
        &&& self.carry@.len() <= self.position
        &&& (self.finished || self.position == 0) ==> self.carry@.len() == 0
        &&& (!self.finished && self.position > 0) ==> self.carry@.len() == self.overlap_len
    }

    /// A reader at the start of a stream, or nothing unless
    /// `overlap_len < chunk_len`.
    pub fn new(chunk_len: usize, overlap_len: usize) -> (reader: Option<ChunkedReader>)
        ensures
            reader is Some <==> overlap_len < chunk_len,
            reader matches Some(r) ==> {
                &&& r.spec_chunk_len() == chunk_len
                &&& r.spec_overlap_len() == overlap_len
                &&& r.spec_carry() == Seq::<i16>::empty()
                &&& r.spec_position() == 0
                &&& !r.spec_finished()
            },
    {
        if overlap_len < chunk_len {
            Some(
                ChunkedReader {
                    chunk_len,
                    overlap_len,
                    carry: Vec::new(),
                    position: 0,
                    finished: false,
                },
            )
        } else {
            None
        }
    }

    /// Size of a full window.
    pub fn chunk_len(&self) -> (n: usize)
        ensures
            n == self.spec_chunk_len(),
            self.spec_overlap_len() < n,
    {
        proof {
            use_type_invariant(self);
        }
        self.chunk_len
    }

    /// Number of samples that a window repeats from the one before it.
    pub fn overlap_len(&self) -> (n: usize)
        ensures
            n == self.spec_overlap_len(),
            n < self.spec_chunk_len(),
    {
        proof {
            use_type_invariant(self);
        }
        self.overlap_len
    }

    /// Number of samples taken from the source so far.
    pub fn position(&self) -> (p: u64)
        ensures
            p == self.spec_position(),
    {
        self.position
    }

    /// Whether the source has run dry.
    pub fn is_finished(&self) -> (b: bool)
        ensures
            b == self.spec_finished(),
    {
        self.finished
    }

    /// Number of fresh samples to ask the source for: what is missing for a
    /// full window, and nothing once the source has run dry.
    pub fn wanted(&self) -> (n: usize)
        ensures
            n == self.spec_wanted(),
            !self.spec_finished() ==> n > 0,
    {
        proof {
            use_type_invariant(self);
        }
        if self.finished {
            0
        } else {
            self.chunk_len - self.carry.len()
        }
    }

    /// Takes what the source gave when asked for [`wanted`](Self::wanted)
    /// samples and puts the next window together: the carry-over, then the
    /// fresh samples.
    ///
    /// As many fresh samples as wanted make a full window, whose last
    /// `overlap_len` samples are carried over into the next. Fewer mean that
    /// the source has run dry: what there is, carried over or fresh, makes
    /// the last, short window, and nothing is carried over from it. Where
    /// there is nothing at all, and after the last window, there is no
    /// window.
    pub fn accept(&mut self, fresh: &[i16]) -> (chunk: Option<Chunk>)
        requires
            fresh@.len() <= old(self).spec_wanted(),
            old(self).spec_position() + fresh@.len() <= u64::MAX,
        ensures
            final(self).spec_chunk_len() == old(self).spec_chunk_len(),
            final(self).spec_overlap_len() == old(self).spec_overlap_len(),
            final(self).spec_position() == old(self).spec_position() + fresh@.len(),
            chunk is Some <==> (!old(self).spec_finished() && old(self).spec_carry().len()
                + fresh@.len() > 0),
            chunk matches Some(c) ==> {
                &&& c.samples@ == old(self).spec_carry() + fresh@
                &&& c.carried == old(self).spec_carry().len()
                &&& c.start == old(self).spec_position() - old(self).spec_carry().len()
            },
            final(self).spec_finished() <==> (old(self).spec_finished() || fresh@.len() < old(
                self,
            ).spec_wanted()),
            final(self).spec_finished() ==> final(self).spec_carry() == Seq::<i16>::empty(),
            !final(self).spec_finished() ==> final(self).spec_carry() == (old(self).spec_carry()
                + fresh@).skip(old(self).spec_chunk_len() - old(self).spec_overlap_len()),
    {
        proof {
            use_type_invariant(&*self);
        }
        if self.finished || (fresh.len() == 0 && self.carry.len() == 0) {
            *self = ChunkedReader {
                chunk_len: self.chunk_len,
                overlap_len: self.overlap_len,
                carry: Vec::new(),
                position: self.position,
                finished: true,
            };
            return None;
        }
        let full = fresh.len() == self.chunk_len - self.carry.len();
        let carried = self.carry.len();
        let start = self.position - (carried as u64);
        let ghost before = self.carry@;
        let mut samples: Vec<i16> = Vec::new();
        let mut i: usize = 0;
        while i < carried
            invariant
                i <= carried,
                carried == self.carry@.len(),
                self.carry@ == before,
                samples@ == before.subrange(0, i as int),
            decreases carried - i,
        {
            samples.push(self.carry[i]);
            assert(before.subrange(0, i + 1) =~= before.subrange(0, i as int).push(before[i as int]));
            i += 1;
        }
        assert(before.subrange(0, carried as int) =~= before);
        let mut j: usize = 0;
        while j < fresh.len()
            invariant
                j <= fresh@.len(),
                samples@ == before + fresh@.subrange(0, j as int),
            decreases fresh@.len() - j,
        {
            samples.push(fresh[j]);
            assert(fresh@.subrange(0, j + 1) =~= fresh@.subrange(0, j as int).push(fresh@[j as int]));
            assert(before + fresh@.subrange(0, j + 1) =~= (before + fresh@.subrange(
                0,
                j as int,
            )).push(fresh@[j as int]));
            j += 1;
        }
        assert(fresh@.subrange(0, fresh@.len() as int) =~= fresh@);
        let mut carry: Vec<i16> = Vec::new();
        if full {
            let from = self.chunk_len - self.overlap_len;
            let mut k: usize = from;
            while k < self.chunk_len
                invariant
                    from <= k <= self.chunk_len,
                    samples@.len() == self.chunk_len,
                    carry@ == samples@.subrange(from as int, k as int),
                decreases self.chunk_len - k,
            {
                carry.push(samples[k]);
                assert(samples@.subrange(from as int, k + 1) =~= samples@.subrange(
                    from as int,
                    k as int,
                ).push(samples@[k as int]));
                k += 1;
            }
            assert(samples@.subrange(from as int, self.chunk_len as int) =~= samples@.skip(
                from as int,
            ));
        }
        *self = ChunkedReader {
            chunk_len: self.chunk_len,
            overlap_len: self.overlap_len,
            carry,
            position: self.position + (fresh.len() as u64),
            finished: !full,
        };
        Some(Chunk { start, samples, carried })
    }
}

/// `chunk` is window `k` of the stream: it holds the samples of that window,
/// knows where the window starts, and counts as carried the samples that it
/// shares with the window before.
pub open spec fn is_chunk_of(
    chunk: Chunk,
    stream: Seq<i16>,
    k: int,
    chunk_len: int,
    overlap_len: int,
) -> bool {
    &&& chunk.samples@ == chunk_of(stream, k, chunk_len, overlap_len)
    &&& chunk.start == chunk_start(k, chunk_len, overlap_len)
    &&& chunk.carried == if k == 0 {
        0
    } else {
        overlap_len
    }
}

/// Each window starts one stride behind the window before it.
proof fn lemma_chunk_start_step(k: int, chunk_len: int, overlap_len: int)
    ensures
        chunk_start(0, chunk_len, overlap_len) == 0,
        chunk_start(k + 1, chunk_len, overlap_len) == chunk_start(k, chunk_len, overlap_len)
            + stride(chunk_len, overlap_len),
{
    let s = stride(chunk_len, overlap_len);
    assert((k + 1) * s == k * s + s) by (nonlinear_arith);
    assert(0 * s == 0) by (nonlinear_arith);
}

/// Runs the reader over a whole stream that is held in memory and gives its
/// windows in order, or nothing unless `overlap_len < chunk_len`.
///
/// Window `k` holds the samples from `k * (chunk_len - overlap_len)` on,
/// `chunk_len` of them or as many as are left. There is a window `k` exactly
/// where it starts inside the stream and the window before it, if there is
/// one, is full. Putting the windows together again, each but the first
/// without its leading `overlap_len` samples, gives the stream back.
pub fn read_chunks(samples: &[i16], chunk_len: usize, overlap_len: usize) -> (out: Option<
    Vec<Chunk>,
>)
    ensures
        out is Some <==> overlap_len < chunk_len,
        out matches Some(chunks) ==> {
            &&& forall|k: int|
                0 <= k < chunks@.len() ==> is_chunk_of(
                    #[trigger] chunks@[k],
                    samples@,
                    k,
                    chunk_len as int,
                    overlap_len as int,
                )
            &&& forall|k: int|
                0 <= k < chunks@.len() ==> #[trigger] chunk_exists(
                    k,
                    samples@.len() as int,
                    chunk_len as int,
                    overlap_len as int,
                )
            &&& !chunk_exists(
                chunks@.len() as int,
                samples@.len() as int,
                chunk_len as int,
                overlap_len as int,
            )
            &&& reassembled(chunk_samples(chunks@), overlap_len as int) == samples@
        },
{
    let mut reader = match ChunkedReader::new(chunk_len, overlap_len) {
        Some(reader) => reader,
        None => {
            return None;
        },
    };
    let total = samples.len();
    let ghost cl = chunk_len as int;
    let ghost ol = overlap_len as int;
    let mut chunks: Vec<Chunk> = Vec::new();
    let mut pos: usize = 0;
    let mut done = false;
    proof {
        lemma_chunk_start_step(0, cl, ol);
        assert(reassembled(chunk_samples(chunks@), ol) =~= samples@.subrange(0, 0));
    }
    while !done
        invariant
            total == samples@.len(),
            cl == chunk_len,
            ol == overlap_len,
            ol < cl,
            pos <= total,
            reader.spec_chunk_len() == chunk_len,
            reader.spec_overlap_len() == overlap_len,
            reader.spec_position() == pos,
            !reader.spec_finished() ==> fresh_start(chunks@.len() as int, cl, ol) == pos,
            !reader.spec_finished() && chunks@.len() == 0 ==> reader.spec_carry() == Seq::<
                i16,
            >::empty(),
            !reader.spec_finished() && chunks@.len() > 0 ==> reader.spec_carry()
                == samples@.subrange(pos - ol, pos as int),
            reader.spec_finished() ==> pos == total && !chunk_exists(
                chunks@.len() as int,
                total as int,
                cl,
                ol,
            ),
            done ==> pos == total && !chunk_exists(chunks@.len() as int, total as int, cl, ol),
            forall|k: int|
                0 <= k < chunks@.len() ==> is_chunk_of(#[trigger] chunks@[k], samples@, k, cl, ol),
            forall|k: int|
                0 <= k < chunks@.len() ==> #[trigger] chunk_exists(k, total as int, cl, ol),
            reassembled(chunk_samples(chunks@), ol) == samples@.subrange(0, pos as int),
        decreases
                (total - pos) + (if done {
                    0int
                } else if reader.spec_finished() {
                    1int
                } else {
                    2int
                }),
    {
        let want = reader.wanted();
        let avail = total - pos;
        let take = if want < avail {
            want
        } else {
            avail
        };
        let fresh = vstd::slice::slice_subrange(samples, pos, pos + take);
        let ghost k = chunks@.len() as int;
        let ghost carry = reader.spec_carry();
        let ghost before = chunks@;
        match reader.accept(fresh) {
            None => {
                proof {
                    lemma_chunk_start_step(k, cl, ol);
                }
                done = true;
            },
            Some(chunk) => {
                proof {
                    lemma_chunk_start_step(k, cl, ol);
                    if k > 0 {
                        lemma_chunk_start_step(k - 1, cl, ol);
                    }
                    lemma_chunk_start_step(k + 1, cl, ol);
                    assert(chunk.samples@ =~= chunk_of(samples@, k, cl, ol));
                    let grown = before.push(chunk);
                    assert(chunk_samples(grown).drop_last() =~= chunk_samples(before));
                    assert(chunk_samples(grown).last() == chunk.samples@);
                    if k > 0 {
                        assert(chunk.samples@.skip(ol) =~= fresh@);
                    }
                    assert(reassembled(chunk_samples(grown), ol) =~= samples@.subrange(
                        0,
                        pos + take,
                    ));
                    if !reader.spec_finished() {
                        assert(reader.spec_carry() =~= samples@.subrange(
                            pos + take - ol,
                            pos + take,
                        ));
                    }
                }
                chunks.push(chunk);
                pos = pos + take;
            },
        }
    }
    assert(samples@.subrange(0, pos as int) =~= samples@);
    Some(chunks)
}

} // verus!
