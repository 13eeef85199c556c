//! A file mapped into memory, scanned as one buffer.

use vstd::prelude::*;

use crate::touch::{byte_of, strided_sum, touch_whole};

verus! {

#[verifier::external_type_specification]
#[verifier::external_body]
pub struct ExMmap(memmap2::Mmap);

/// The bytes that a mapping holds. A mapping's contents stay fixed while it
/// is alive: changing the mapped file is undefined behaviour for `Mmap`.
pub uninterp spec fn mapped_contents(mm: memmap2::Mmap) -> Seq<u8>;

/// Relies on `memmap2::Mmap`'s `Deref` to `[u8]`: the mapped region as a
/// byte slice; like every Rust slice it holds at most `isize::MAX` bytes.
#[verifier::external_body]
fn mapped_bytes(mm: &memmap2::Mmap) -> (r: &[u8])
    ensures
        r@ == mapped_contents(*mm),
        r@.len() <= isize::MAX,
{
    mm
}

/// Touches the whole mapped region in one call, with a fresh cursor and the
/// given stride, and returns the accumulator.
pub fn touch_mm(mm: &memmap2::Mmap, stride: usize) -> (r: u8)
    requires
        0 < stride <= isize::MAX,
    ensures
        r == byte_of(strided_sum(mapped_contents(*mm), 0, stride as int)),
{
    let bytes = mapped_bytes(mm);
    touch_whole(bytes, stride)
}

/// Two mappings that hold the same bytes (the same unchanged file, mapped
/// in two runs) are touched to the same accumulator.
pub proof fn lemma_same_contents_same_sum(mm1: memmap2::Mmap, mm2: memmap2::Mmap, stride: int)
    requires
        mapped_contents(mm1) == mapped_contents(mm2),
    ensures
        byte_of(strided_sum(mapped_contents(mm1), 0, stride)) == byte_of(
            strided_sum(mapped_contents(mm2), 0, stride),
        ),
{
}

} // verus!
