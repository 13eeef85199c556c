//! Combining the per-file accumulators of one trial into one checksum.

use vstd::arithmetic::div_mod::lemma_add_mod_noop_right;
use vstd::prelude::*;

use crate::scan::{lemma_chunked_scan_matches_whole, scan_chunks};
use crate::touch::{byte_of, strided_sum};

verus! {

/// The unbounded sum of a sequence of bytes.
pub open spec fn total(s: Seq<u8>) -> int
    decreases s.len(),
{
    if s.len() == 0 {
        0
    } else {
        total(s.drop_last()) + s.last() as int
    }
}

/// Adds the per-file accumulators with wrapping addition, in order.
pub fn combine_sums(sums: &[u8]) -> (r: u8)
    ensures
        r == byte_of(total(sums@)),
{
    let mut acc: u8 = 0;
    let mut i: usize = 0;
    while i < sums.len()
        invariant
            i <= sums@.len(),
            acc == byte_of(total(sums@.take(i as int))),
        decreases sums@.len() - i,
    {
        let b = sums[i];
        assert(sums@.take(i + 1).drop_last() =~= sums@.take(i as int));
        proof {
            lemma_add_mod_noop_right(b as int, total(sums@.take(i as int)), 256);
        }
        acc = acc.wrapping_add(b);
        i = i + 1;
    }
    assert(sums@.take(sums@.len() as int) =~= sums@);
    acc
}

/// Taking one element out of a sequence takes its value out of the total.
pub proof fn lemma_total_remove(s: Seq<u8>, j: int)
    requires
        0 <= j < s.len(),
    ensures
        total(s) == total(s.remove(j)) + s[j] as int,
    decreases s.len(),
{
    if j < s.len() - 1 {
        let r = s.remove(j);
        lemma_total_remove(s.drop_last(), j);
        assert(s.drop_last().remove(j) =~= r.drop_last());
    } else {
        assert(s.remove(j) =~= s.drop_last());
    }
}

/// The total of the per-file accumulators does not depend on the order in
/// which the files were finished: sequential runs, threads and cooperative
/// tasks all combine the same multiset of accumulators into the same sum.
pub proof fn lemma_total_any_order(a: Seq<u8>, b: Seq<u8>)
    requires
        a.to_multiset() == b.to_multiset(),
    ensures
        total(a) == total(b),
        byte_of(total(a)) == byte_of(total(b)),
    decreases a.len(),
{
    broadcast use vstd::seq_lib::group_to_multiset_ensures;

    if a.len() == 0 {
        assert(b.to_multiset().len() == 0);
        assert(b.len() == 0);
    } else {
        let x = a.last();
        let a1 = a.drop_last();
        assert(a1.push(x) =~= a);
        assert(a.to_multiset().count(x) > 0);
        assert(b.contains(x));
        let j = choose|j: int| 0 <= j < b.len() && b[j] == x;
        let b1 = b.remove(j);
        assert(a1.to_multiset() =~= a.to_multiset().remove(x));
        assert(b1.to_multiset() =~= b.to_multiset().remove(x));
        lemma_total_any_order(a1, b1);
        lemma_total_remove(b, j);
    }
}

/// The per-file accumulators of the read-call path: file `k` read as the
/// chunks `reads[k]`.
pub open spec fn read_path_sums(reads: Seq<Seq<Seq<u8>>>, stride: int) -> Seq<u8> {
    Seq::new(reads.len(), |k: int| scan_chunks(reads[k], stride).1)
}

/// The per-file accumulators of the mapped path: each file scanned whole.
pub open spec fn mapped_path_sums(files: Seq<Seq<u8>>, stride: int) -> Seq<u8> {
    Seq::new(files.len(), |k: int| byte_of(strided_sum(files[k], 0, stride)))
}

/// Reading each file in chunks and mapping each file whole give the same
/// per-file accumulators, and so the same checksum for the file set, where
/// every read but the last of each file is at least one stride long; and the
/// checksum is the same whichever order the files were finished in.
pub proof fn lemma_paths_agree(reads: Seq<Seq<Seq<u8>>>, finished: Seq<u8>, stride: int)
    requires
        stride > 0,
        forall|f: int, k: int|
            0 <= f < reads.len() && 0 <= k < reads[f].len() - 1 ==> (#[trigger] reads[f][k]).len()
                >= stride,
        finished.to_multiset() == read_path_sums(reads, stride).to_multiset(),
    ensures
        read_path_sums(reads, stride) == mapped_path_sums(
            Seq::new(reads.len(), |f: int| reads[f].flatten()),
            stride,
        ),
        byte_of(total(finished)) == byte_of(total(read_path_sums(reads, stride))),
{
    let files = Seq::new(reads.len(), |f: int| reads[f].flatten());
    assert forall|f: int| 0 <= f < reads.len() implies read_path_sums(reads, stride)[f]
        == mapped_path_sums(files, stride)[f] by {
        assert forall|k: int| 0 <= k < reads[f].len() - 1 implies (#[trigger] reads[f][k]).len()
            >= stride by {}
        lemma_chunked_scan_matches_whole(reads[f], 0, stride);
    }
    assert(read_path_sums(reads, stride) =~= mapped_path_sums(files, stride));
    lemma_total_any_order(finished, read_path_sums(reads, stride));
}

} // verus!
