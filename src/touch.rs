//! The buffer toucher: a strided scan that adds one byte of every stride
//! into a wrapping byte accumulator, with a cursor carried across chunks.

use vstd::arithmetic::div_mod::{lemma_add_mod_noop_right, lemma_div_plus_one};
use vstd::prelude::*;

verus! {

/// Distance, in bytes, between two sampled positions of a scan.
pub const STEP_SIZE: usize = 512;

/// Sum, as an unbounded integer, of the bytes of `s` at the positions
/// `i, i + stride, i + 2 * stride, ...` that lie below `s.len()`.
pub open spec fn strided_sum(s: Seq<u8>, i: int, stride: int) -> int
    decreases s.len() + stride - i,
{
    if stride <= 0 || i < 0 || i >= s.len() {
        0
    } else {
        s[i] as int + strided_sum(s, i + stride, stride)
    }
}

/// The first position of the progression `i, i + stride, ...` that is not
/// below `len`: where a scan of a buffer of `len` bytes stops.
pub open spec fn scan_end(len: int, i: int, stride: int) -> int
    decreases len + stride - i,
{
    if stride <= 0 || i >= len {
        i
    } else {
        scan_end(len, i + stride, stride)
    }
}

/// An unbounded sum taken modulo 256, as a byte accumulator holds it.
pub open spec fn byte_of(x: int) -> u8 {
    (x % 256) as u8
}

/// Scans `buf[..read]` from the cursor `*idx` with the given stride, adding
/// each sampled byte into `*sum` with wrapping addition. Afterwards the
/// cursor holds the scan's end position modulo `read`, the phase at which the
/// next chunk of the same stream resumes. An empty chunk changes nothing.
pub fn touch_strided(buf: &[u8], read: usize, idx: &mut usize, sum: &mut u8, stride: usize)
    requires
        stride > 0,
        read <= buf@.len(),
        read + stride <= usize::MAX,
    ensures
        *final(sum) == byte_of(*old(sum) + strided_sum(buf@.take(read as int), *old(idx) as int, stride as int)),
        read > 0 ==> *final(idx) == scan_end(read as int, *old(idx) as int, stride as int) % (read as int),
        read > 0 ==> *final(idx) < read,
        read > 0 && *old(idx) < read ==> *final(idx) == (*old(idx) + stride * ((read - *old(idx)
            + stride - 1) as int / stride as int)) % (read as int),
        read >= stride && *old(idx) < read ==> *final(idx) == scan_end(
            read as int,
            *old(idx) as int,
            stride as int,
        ) - read,
        read == 0 ==> *final(idx) == *old(idx),
{
    let ghost s = buf@.take(read as int);
    let ghost i0 = *idx as int;
    let ghost a0 = *sum as int;
    let mut i: usize = *idx;
    let mut acc: u8 = *sum;
    while i < read
        invariant
            stride > 0,
            read <= buf@.len(),
            read + stride <= usize::MAX,
            s == buf@.take(read as int),
            (acc as int + strided_sum(s, i as int, stride as int)) % 256
                == (a0 + strided_sum(s, i0, stride as int)) % 256,
            scan_end(read as int, i as int, stride as int) == scan_end(read as int, i0, stride as int),
        decreases read + stride - i,
    {
        let b = buf[i];
        let ghost rest = strided_sum(s, i + stride, stride as int);
        assert(strided_sum(s, i as int, stride as int) == b as int + rest);
        let next = acc.wrapping_add(b);
        assert(next as int == (acc as int + b as int) % 256);
        proof {
            lemma_add_mod_noop_right(rest, acc as int + b as int, 256);
        }
        acc = next;
        i = i + stride;
    }
    assert(strided_sum(s, i as int, stride as int) == 0);
    assert(scan_end(read as int, i as int, stride as int) == i);
    proof {
        lemma_scan_end_bounds(read as int, i0, stride as int);
        if read > 0 && i0 < read {
            lemma_scan_end_closed_form(read as int, i0, stride as int);
        }
        if read >= stride && i0 < read {
            let e = i as int;
            let n = read as int;
            assert(e % n == e - n) by (nonlinear_arith)
                requires
                    n <= e < n + n,
            ;
        }
    }
    *sum = acc;
    if read > 0 {
        *idx = i % read;
    }
}

/// Scans `buf[..read]` with the fixed stride of `STEP_SIZE` bytes, carrying
/// the cursor `*idx` and the accumulator `*sum` as `touch_strided` does.
pub fn touch_buffer(buf: &[u8], read: usize, idx: &mut usize, sum: &mut u8)
    requires
        read <= buf@.len(),
        read + STEP_SIZE <= usize::MAX,
    ensures
        *final(sum) == byte_of(*old(sum) + strided_sum(buf@.take(read as int), *old(idx) as int, STEP_SIZE as int)),
        read > 0 ==> *final(idx) == scan_end(read as int, *old(idx) as int, STEP_SIZE as int) % (read as int),
        read > 0 ==> *final(idx) < read,
        read > 0 && *old(idx) < read ==> *final(idx) == (*old(idx) + STEP_SIZE * ((read - *old(idx)
            + STEP_SIZE - 1) as int / STEP_SIZE as int)) % (read as int),
        read >= STEP_SIZE && *old(idx) < read ==> *final(idx) == scan_end(
            read as int,
            *old(idx) as int,
            STEP_SIZE as int,
        ) - read,
        read == 0 ==> *final(idx) == *old(idx),
{
    touch_strided(buf, read, idx, sum, STEP_SIZE);
}

/// Scans a whole buffer as one piece with the given stride, from a fresh
/// cursor and a zero accumulator, as is done for a file mapped into memory.
pub fn touch_whole(bytes: &[u8], stride: usize) -> (r: u8)
    requires
        stride > 0,
        bytes@.len() + stride <= usize::MAX,
    ensures
        r == byte_of(strided_sum(bytes@, 0, stride as int)),
{
    let mut sum: u8 = 0;
    let mut idx: usize = 0;
    touch_strided(bytes, bytes.len(), &mut idx, &mut sum, stride);
    assert(bytes@.take(bytes@.len() as int) == bytes@);
    sum
}

/// Past the end of `a`, a scan of `a + b` is a scan of `b`, shifted.
pub proof fn lemma_strided_sum_shift(a: Seq<u8>, b: Seq<u8>, i: int, stride: int)
    requires
        stride > 0,
        i >= a.len(),
    ensures
        strided_sum(a + b, i, stride) == strided_sum(b, i - a.len(), stride),
    decreases (a + b).len() + stride - i,
{
    if i < (a + b).len() {
        lemma_strided_sum_shift(a, b, i + stride, stride);
    }
}

/// A scan of `a + b` is the scan of `a`, then the scan of `b` from the
/// position at which the scan of `a` stopped, less the length of `a`.
pub proof fn lemma_strided_sum_concat(a: Seq<u8>, b: Seq<u8>, i: int, stride: int)
    requires
        stride > 0,
        i >= 0,
    ensures
        strided_sum(a + b, i, stride) == strided_sum(a, i, stride) + strided_sum(
            b,
            scan_end(a.len() as int, i, stride) - a.len(),
            stride,
        ),
    decreases a.len() + stride - i,
{
    if i >= a.len() {
        lemma_strided_sum_shift(a, b, i, stride);
    } else {
        lemma_strided_sum_concat(a, b, i + stride, stride);
    }
}

/// Where a scan stops is invariant under moving the whole progression.
pub proof fn lemma_scan_end_shift(len: int, i: int, n: int, stride: int)
    requires
        stride > 0,
    ensures
        scan_end(len + n, i + n, stride) == scan_end(len, i, stride) + n,
    decreases len + stride - i,
{
    if i < len {
        lemma_scan_end_shift(len, i + stride, n, stride);
    }
}

/// A scan over `n + m` positions stops where the scan over the last `m`
/// stops, when started at the phase that the scan over the first `n` left.
pub proof fn lemma_scan_end_split(n: int, m: int, i: int, stride: int)
    requires
        stride > 0,
        n >= 0,
        m >= 0,
    ensures
        scan_end(n + m, i, stride) == n + scan_end(m, scan_end(n, i, stride) - n, stride),
    decreases n + stride - i,
{
    if i >= n {
        lemma_scan_end_shift(m, i - n, n, stride);
    } else {
        lemma_scan_end_split(n, m, i + stride, stride);
    }
}

/// A scan started inside a buffer stops less than one stride past its end;
/// one started past the end stops where it started.
pub proof fn lemma_scan_end_bounds(len: int, i: int, stride: int)
    requires
        stride > 0,
    ensures
        i < len ==> len <= scan_end(len, i, stride) < len + stride,
        i >= len ==> scan_end(len, i, stride) == i,
    decreases len + stride - i,
{
    if i < len {
        lemma_scan_end_bounds(len, i + stride, stride);
    }
}

/// Where a scan started inside a buffer stops, in closed form: the first
/// position of the progression at or past `len`.
pub proof fn lemma_scan_end_closed_form(len: int, i: int, stride: int)
    requires
        stride > 0,
        0 <= i < len,
    ensures
        scan_end(len, i, stride) == i + stride * ((len - i + stride - 1) / stride),
    decreases len - i,
{
    let x = len - i - 1;
    lemma_div_plus_one(x, stride);
    assert(stride + x == len - i + stride - 1);
    assert((len - i + stride - 1) / stride == 1 + x / stride);
    assert(scan_end(len, i, stride) == scan_end(len, i + stride, stride));
    if i + stride >= len {
        assert(x / stride == 0) by (nonlinear_arith)
            requires
                0 <= x < stride,
        ;
        assert(scan_end(len, i + stride, stride) == i + stride);
        assert(stride * (1 + x / stride) == stride) by (nonlinear_arith)
            requires
                x / stride == 0,
        ;
    } else {
        lemma_scan_end_closed_form(len, i + stride, stride);
        assert(len - (i + stride) + stride - 1 == x);
        assert(stride * (1 + x / stride) == stride + stride * (x / stride)) by (nonlinear_arith);
        assert(scan_end(len, i + stride, stride) == i + stride + stride * (x / stride));
    }
}

} // verus!
