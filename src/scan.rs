//! A file scanned through a sequence of chunks: the state that a reader
//! carries from one read call to the next, and the law that a chunked scan
//! samples the same bytes as a scan of the whole file.

use vstd::arithmetic::div_mod::lemma_add_mod_noop_right;
use vstd::prelude::*;

use crate::touch::{
    byte_of, lemma_scan_end_bounds, lemma_scan_end_split, lemma_strided_sum_concat, scan_end,
    strided_sum, touch_strided,
};

verus! {

/// The cursor and accumulator after one call of the toucher on `chunk`.
pub open spec fn touch_step(chunk: Seq<u8>, cursor: int, sum: u8, stride: int) -> (int, u8) {
    if chunk.len() == 0 {
        (cursor, sum)
    } else {
        (
            scan_end(chunk.len() as int, cursor, stride) % (chunk.len() as int),
            byte_of(sum + strided_sum(chunk, cursor, stride)),
        )
    }
}

/// The cursor and accumulator after feeding `chunks`, in order, to the
/// toucher, starting from a zero cursor and the accumulator `start`.
pub open spec fn scan_chunks_from(chunks: Seq<Seq<u8>>, start: u8, stride: int) -> (int, u8)
    decreases chunks.len(),
{
    if chunks.len() == 0 {
        (0, start)
    } else {
        let p = scan_chunks_from(chunks.drop_last(), start, stride);
        touch_step(chunks.last(), p.0, p.1, stride)
    }
}

/// The cursor and accumulator after feeding `chunks`, in order, to the
/// toucher, starting from a zero cursor and a zero accumulator.
pub open spec fn scan_chunks(chunks: Seq<Seq<u8>>, stride: int) -> (int, u8) {
    scan_chunks_from(chunks, 0, stride)
}

proof fn lemma_byte_of_add(x: int, y: int)
    ensures
        byte_of(byte_of(x) + y) == byte_of(x + y),
{
    lemma_add_mod_noop_right(y, x, 256);
}

/// While every chunk is at least one stride long, the carried cursor is the
/// exact phase of the whole stream and the accumulator is its strided sum.
proof fn lemma_full_chunks(chunks: Seq<Seq<u8>>, start: u8, stride: int)
    requires
        stride > 0,
        forall|k: int| 0 <= k < chunks.len() ==> (#[trigger] chunks[k]).len() >= stride,
    ensures
        scan_chunks_from(chunks, start, stride).1 == byte_of(
            start + strided_sum(chunks.flatten(), 0, stride),
        ),
        scan_chunks_from(chunks, start, stride).0 == scan_end(
            chunks.flatten().len() as int,
            0,
            stride,
        ) - chunks.flatten().len(),
        0 <= scan_chunks_from(chunks, start, stride).0 < stride,
    decreases chunks.len(),
{
    if chunks.len() == 0 {
        assert(chunks.flatten() =~= Seq::<u8>::empty());
    } else {
        let init = chunks.drop_last();
        let c = chunks.last();
        assert(init.push(c) == chunks);
        assert forall|k: int| 0 <= k < init.len() implies (#[trigger] init[k]).len() >= stride by {
            assert(init[k] == chunks[k]);
        }
        lemma_full_chunks(init, start, stride);
        init.lemma_flatten_push(c);
        step_from_phase(init, c, start, stride);
        let g = init.flatten();
        let p = scan_chunks_from(init, start, stride);
        let n = g.len() as int;
        let len = c.len() as int;
        lemma_scan_end_bounds(len, p.0, stride);
        lemma_scan_end_split(n, len, 0, stride);
        let e = scan_end(len, p.0, stride);
        assert(e % len == e - len) by (nonlinear_arith)
            requires
                len <= e < len + len,
        ;
    }
}

/// One more chunk on a stream whose cursor holds the exact phase adds the
/// strided sum of that chunk's part of the stream.
proof fn step_from_phase(init: Seq<Seq<u8>>, c: Seq<u8>, start: u8, stride: int)
    requires
        stride > 0,
        scan_chunks_from(init, start, stride).1 == byte_of(
            start + strided_sum(init.flatten(), 0, stride),
        ),
        scan_chunks_from(init, start, stride).0 == scan_end(init.flatten().len() as int, 0, stride)
            - init.flatten().len(),
    ensures
        scan_chunks_from(init.push(c), start, stride).1 == byte_of(
            start + strided_sum(init.flatten() + c, 0, stride),
        ),
{
    let p = scan_chunks_from(init, start, stride);
    assert(init.push(c).drop_last() == init);
    lemma_strided_sum_concat(init.flatten(), c, 0, stride);
    lemma_byte_of_add(start + strided_sum(init.flatten(), 0, stride), strided_sum(c, p.0, stride));
}

/// Scanning a stream in chunks, each carrying the cursor to the next, from
/// any starting accumulator, gives the accumulator of one strided scan over
/// the whole stream from that same start, provided that every chunk but the
/// last is at least one stride long (as full buffers of a file read are): the
/// cursor is carried modulo the chunk's length, which keeps the phase only
/// for such chunks.
pub proof fn lemma_chunked_scan_matches_whole(chunks: Seq<Seq<u8>>, start: u8, stride: int)
    requires
        stride > 0,
        forall|k: int| 0 <= k < chunks.len() - 1 ==> (#[trigger] chunks[k]).len() >= stride,
    ensures
        scan_chunks_from(chunks, start, stride).1 == byte_of(
            start + strided_sum(chunks.flatten(), 0, stride),
        ),
        scan_chunks_from(chunks, start, stride).1 == touch_step(
            chunks.flatten(),
            0,
            start,
            stride,
        ).1,
{
    if chunks.len() == 0 {
        assert(chunks.flatten() =~= Seq::<u8>::empty());
    } else {
        let init = chunks.drop_last();
        let c = chunks.last();
        assert(init.push(c) == chunks);
        assert forall|k: int| 0 <= k < init.len() implies (#[trigger] init[k]).len() >= stride by {
            assert(init[k] == chunks[k]);
        }
        lemma_full_chunks(init, start, stride);
        init.lemma_flatten_push(c);
        step_from_phase(init, c, start, stride);
    }
    if chunks.flatten().len() == 0 {
        assert(start as int % 256 == start as int);
    }
}

/// The state of one file being read chunk by chunk: the carried cursor, the
/// running byte accumulator, and (as ghost state) the chunks fed so far.
pub struct FileScan {
    cursor: usize,
    sum: u8,
    stride: usize,
    fed: Ghost<Seq<Seq<u8>>>,
}

impl FileScan {
    /// The non-empty chunks fed so far, in order.
    pub closed spec fn chunks(&self) -> Seq<Seq<u8>> {
        self.fed@
    }

    pub closed spec fn stride(&self) -> int {
        self.stride as int
    }

    /// The accumulator that the chunks fed so far give.
    pub open spec fn spec_sum(&self) -> u8 {
        scan_chunks(self.chunks(), self.stride()).1
    }

    pub closed spec fn wf(&self) -> bool {
        &&& self.stride > 0
        &&& (self.cursor as int, self.sum) == scan_chunks(self.fed@, self.stride as int)
    }

    /// A scan of a file that has not been read yet.
    pub fn new(stride: usize) -> (r: FileScan)
        requires
            stride > 0,
        ensures
            r.wf(),
            r.chunks() == Seq::<Seq<u8>>::empty(),
            r.stride() == stride,
    {
        FileScan { cursor: 0, sum: 0, stride, fed: Ghost(Seq::empty()) }
    }

    /// Takes the result of one read call: `read` bytes at the start of
    /// `buf`. Zero bytes mean the end of the file: nothing is touched and
    /// `false` is returned, telling the reader to stop. Otherwise the chunk is
    /// touched with the carried cursor and `true` is returned.
    pub fn feed(&mut self, buf: &[u8], read: usize) -> (more: bool)
        requires
            old(self).wf(),
            read <= buf@.len(),
            read + old(self).stride() <= usize::MAX,
        ensures
            final(self).wf(),
            more == (read > 0),
            final(self).stride() == old(self).stride(),
            read > 0 ==> final(self).chunks() == old(self).chunks().push(buf@.take(read as int)),
            read == 0 ==> final(self).chunks() == old(self).chunks(),
    {
        if read == 0 {
            return false;
        }
        let ghost chunk = buf@.take(read as int);
        touch_strided(buf, read, &mut self.cursor, &mut self.sum, self.stride);
        proof {
            let fed = self.fed@.push(chunk);
            assert(fed.drop_last() =~= self.fed@);
            self.fed = Ghost(fed);
        }
        true
    }

    /// The accumulator so far: once the end of the file has been fed, the
    /// file's checksum.
    pub fn sum(&self) -> (r: u8)
        requires
            self.wf(),
        ensures
            r == self.spec_sum(),
    {
        self.sum
    }
}

} // verus!
