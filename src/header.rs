use vstd::prelude::*;

verus! {

/// Size in bytes of the header that prefixes every heap cell.
pub const HEADER_SIZE: usize = 8;

/// Alignment unit of the heap: every cell size is a multiple of it.
pub const ALIGN: usize = 8;

/// `n` rounded up to the next multiple of `ALIGN`.
pub open spec fn align_up(n: int) -> int {
    ((n + 7) / 8) * 8
}

/// Rounds a payload size up to the heap's alignment unit.
pub fn round_up(n: usize) -> (r: usize)
    requires
        n + 7 <= usize::MAX,
    ensures
        r == align_up(n as int),
        r % ALIGN == 0,
        r >= n,
{
    ((n + 7) / 8) * 8
}

} // verus!
