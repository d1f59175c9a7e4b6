//! The bump allocator that hands out DMA pages to the VirtIO drivers from a
//! fixed arena.
use vstd::prelude::*;

verus! {

/// Size of a page.
pub const PAGE_SIZE: usize = 4096;

/// `x` rounded up to a multiple of [`PAGE_SIZE`].
pub open spec fn page_round_up(x: int) -> int {
    ((x + PAGE_SIZE - 1) / (PAGE_SIZE as int)) * PAGE_SIZE
}

/// Reserves `pages` pages in an arena of `capacity` bytes of which the
/// first `used` bytes are taken. The block starts at the first page
/// boundary at or after `used`; there is none when it would not fit.
/// Returns the block's offset and the new number of bytes taken.
pub fn dma_reserve(used: usize, pages: usize, capacity: usize) -> (r: Option<(usize, usize)>)
    requires
        used + PAGE_SIZE + pages * PAGE_SIZE <= usize::MAX,
    ensures
        ({
            let start = page_round_up(used as int);
            let end = start + pages * PAGE_SIZE;
            if end > capacity {
                r is None
            } else {
                r == Some((start as usize, end as usize))
            }
        }),
        r matches Some((start, end)) ==> start % PAGE_SIZE == 0 && used <= start && start <= end <= capacity,
{
    let size = pages * PAGE_SIZE;
    let sum = used + PAGE_SIZE - 1;
    let start = sum & !(PAGE_SIZE - 1);
    proof {
        assert(sum & !(4095usize) == sum - sum % 4096) by (bit_vector);
        vstd::arithmetic::div_mod::lemma_fundamental_div_mod(sum as int, 4096);
        assert(start == (sum as int / 4096) * 4096);
        vstd::arithmetic::div_mod::lemma_mod_pos_bound(sum as int, 4096);
        vstd::arithmetic::div_mod::lemma_mod_multiples_basic(sum as int / 4096, 4096);
    }
    if start + size > capacity {
        return None;
    }
    Some((start, start + size))
}

} // verus!
