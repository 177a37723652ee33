use vstd::prelude::*;

verus! {

/// How many samples one write transaction holds.
pub const CHUNK_SIZE: usize = 512;

/// The `k`-th chunk of `n` keys cut into chunks of `size`: from `k * size` up
/// to the next multiple of `size`, or `n`.
pub open spec fn chunk_spec(n: int, size: int, k: int) -> (int, int) {
    (k * size, if (k + 1) * size < n { (k + 1) * size } else { n })
}

/// Cuts `n` sorted keys into consecutive chunks of `size`, the last one
/// possibly shorter, as index ranges `[start, end)`.
pub fn chunk_ranges(n: usize, size: usize) -> (r: Vec<(usize, usize)>)
    requires
        size > 0,
    ensures
        r@.len() * size >= n,
        r@.len() == 0 || (r@.len() - 1) * size < n,
        forall|k: int| 0 <= k < r@.len() ==> (#[trigger] r@[k]).0 as int == chunk_spec(n as int, size as int, k).0
            && r@[k].1 as int == chunk_spec(n as int, size as int, k).1,
{
    let mut r: Vec<(usize, usize)> = Vec::new();
    let mut start: usize = 0;
    assert(r@.len() * size == 0) by (nonlinear_arith)
        requires r@.len() == 0;
    while start < n
        invariant
            size > 0,
            start <= n,
            start as int == if r@.len() * size <= n { r@.len() * size } else { n as int },
            r@.len() == 0 || (r@.len() - 1) * size < n,
            forall|k: int| 0 <= k < r@.len() ==> (#[trigger] r@[k]).0 as int == chunk_spec(n as int, size as int, k).0
                && r@[k].1 as int == chunk_spec(n as int, size as int, k).1,
        decreases n - start,
    {
        let ghost k = r@.len() as int;
        assert(k * size <= n);
        let end = if n - start > size { start + size } else { n };
        r.push((start, end));
        assert((k + 1) * size == k * size + size) by (nonlinear_arith);
        start = end;
        assert(r@[k].0 as int == k * size && r@[k].1 == end);
    }
    proof {
        if r@.len() * size <= n {
            assert(start == n);
        }
    }
    r
}

} // verus!
