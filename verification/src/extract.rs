//! Streaming plan for resource extraction.
//!
//! A resource payload is copied from the source in bounded chunks so that
//! memory use stays independent of the payload's size. `chunk_plan` says
//! exactly how a payload of a given size is cut up; a zero-sized resource
//! needs no chunks — and so no source reads — at all.

use vstd::prelude::*;

verus! {

/// How many payload bytes one streaming chunk may carry at most.
pub const EXTRACT_CHUNK_SIZE: u32 = 0x40_0000;

/// The total number of bytes a sequence of chunks carries.
pub open spec fn chunk_sum(s: Seq<u32>) -> int
    decreases s.len(),
{
    if s.len() == 0 {
        0
    } else {
        chunk_sum(s.drop_last()) + s.last()
    }
}

/// The chunk sizes used to stream one payload of `size` bytes: every chunk
/// is positive and no larger than `chunk_size`, the sizes sum to `size`,
/// and a zero-sized payload needs no chunks at all.
pub fn chunk_plan(size: u32, chunk_size: u32) -> (r: Vec<u32>)
    requires
        chunk_size > 0,
    ensures
        chunk_sum(r@) == size,
        forall|i: int| 0 <= i < r@.len() ==> 0 < #[trigger] r@[i] <= chunk_size,
        size == 0 ==> r@.len() == 0,
{
    let mut remain: u32 = size;
    let mut r: Vec<u32> = Vec::new();
    while remain > 0
        invariant
            chunk_size > 0,
            chunk_sum(r@) == size - remain,
            forall|i: int| 0 <= i < r@.len() ==> 0 < #[trigger] r@[i] <= chunk_size,
            remain <= size,
            size == 0 ==> r@.len() == 0,
        decreases remain,
    {
        let take: u32 = if remain < chunk_size {
            remain
        } else {
            chunk_size
        };
        let ghost prev = r@;
        r.push(take);
        proof {
            assert(r@ == prev.push(take));
            assert(r@.drop_last() =~= prev);
            assert(r@.last() == take);
            assert(forall|i: int| 0 <= i < prev.len() ==> r@[i] == #[trigger] prev[i]);
        }
        remain = remain - take;
    }
    r
}

} // verus!
