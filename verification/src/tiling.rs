use vstd::prelude::*;
use crate::arith::{lemma_split, lemma_div_mod_of};

verus! {

/// `n / block` rounded up.
pub open spec fn ceil_div(n: int, block: int) -> int {
    (n + block - 1) / block
}

/// The `i`-th tile of `[0, n)` cut into runs of `block`: it starts at
/// `i * block` and ends at `i * block + block` or at `n`, whichever is first.
pub open spec fn tile_spec(n: int, block: int, i: int) -> (int, int) {
    let start = i * block;
    (start, if start + block < n { start + block } else { n })
}

/// A multiple of `block` below `n` is at most the last such multiple.
proof fn lemma_start_bound(m: int, n: int, block: int)
    requires
        block > 0,
        0 <= m,
        m * block < n,
    ensures
        m * block <= ((n - 1) / block) * block,
        m <= (n - 1) / block,
{
    lemma_split(n - 1, block);
    assert(m <= (n - 1) / block) by (nonlinear_arith)
        requires
            block > 0,
            m * block <= n - 1,
            n - 1 == ((n - 1) / block) * block + (n - 1) % block,
            (n - 1) % block < block,
    ;
    assert(m * block <= ((n - 1) / block) * block) by (nonlinear_arith)
        requires
            block > 0,
            m <= (n - 1) / block,
    ;
}

/// Facts about the number of tiles: `count * block` reaches `n` and one
/// tile fewer does not.
proof fn lemma_ceil_div(n: int, block: int)
    requires
        block > 0,
        n >= 0,
    ensures
        ceil_div(n, block) >= 0,
        ceil_div(n, block) * block >= n,
        ceil_div(n, block) == 0 || (ceil_div(n, block) - 1) * block < n,
{
    lemma_split(n + block - 1, block);
    let c = ceil_div(n, block);
    assert(c * block >= n && (c == 0 || (c - 1) * block < n) && c >= 0) by (nonlinear_arith)
        requires
            block > 0,
            n >= 0,
            n + block - 1 == c * block + (n + block - 1) % block,
            0 <= (n + block - 1) % block < block,
    ;
}

/// The number of tiles is the least count whose tiles reach `n`: that many
/// runs of `block` cover `n`, one fewer does not, and there are none for an
/// empty range.
pub proof fn law_tile_count(n: int, block: int)
    requires
        block > 0,
        n >= 0,
    ensures
        ceil_div(n, block) >= 0,
        ceil_div(n, block) * block >= n,
        ceil_div(n, block) == 0 || (ceil_div(n, block) - 1) * block < n,
        n == 0 ==> ceil_div(n, block) == 0,
{
    lemma_ceil_div(n, block);
    let c = ceil_div(n, block);
    if n == 0 {
        assert(c == 0) by (nonlinear_arith)
            requires
                c >= 0,
                c == 0 || (c - 1) * block < 0,
                block > 0,
        ;
    }
}

/// The tiles of `[0, n)` in runs of `block`, in order, as `(start, end)`
/// pairs: the blocks a cache-blocked loop over `0..n` with step `block` visits.
pub fn tiles(n: usize, block: usize) -> (r: Vec<(usize, usize)>)
    requires
        block > 0,
        n == 0 || ((n as int - 1) / (block as int)) * block + block <= usize::MAX,
    ensures
        r@.len() == ceil_div(n as int, block as int),
        forall|i: int|
            0 <= i < r@.len() ==> (#[trigger] r@[i]).0 == tile_spec(n as int, block as int, i).0
                && r@[i].1 == tile_spec(n as int, block as int, i).1,
{
    let mut r: Vec<(usize, usize)> = Vec::new();
    let mut start: usize = 0;
    proof {
        lemma_ceil_div(n as int, block as int);
        assert(r@.len() == 0);
        assert(r@.len() * block == 0) by (nonlinear_arith)
            requires
                r@.len() == 0,
        ;
        if n == 0 {
            let c = ceil_div(n as int, block as int);
            assert(c == 0) by (nonlinear_arith)
                requires
                    c >= 0,
                    c == 0 || (c - 1) * block < 0,
                    block > 0,
            ;
        }
    }
    while start < n
        invariant
            block > 0,
            n == 0 || ((n as int - 1) / (block as int)) * block + block <= usize::MAX,
            start == r@.len() * block,
            start < n || start as int == ceil_div(n as int, block as int) * block,
            start >= n ==> r@.len() == ceil_div(n as int, block as int),
            forall|i: int|
                0 <= i < r@.len() ==> (#[trigger] r@[i]).0 == tile_spec(n as int, block as int, i).0
                    && r@[i].1 == tile_spec(n as int, block as int, i).1,
        decreases n + block - start,
    {
        proof {
            lemma_start_bound(r@.len() as int, n as int, block as int);
        }
        let end: usize = if start + block < n { start + block } else { n };
        r.push((start, end));
        let ghost m = r@.len() as int;
        proof {
            assert(start + block == m * block) by (nonlinear_arith)
                requires
                    start == (m - 1) * block,
            ;
            lemma_ceil_div(n as int, block as int);
            if start + block >= n {
                let c = ceil_div(n as int, block as int);
                assert(c == m) by (nonlinear_arith)
                    requires
                        block > 0,
                        c * block >= n,
                        c == 0 || (c - 1) * block < n,
                        (m - 1) * block < n,
                        m * block >= n,
                        c >= 0,
                        m >= 1,
                ;
            }
        }
        start = start + block;
    }
    proof {
        lemma_ceil_div(n as int, block as int);
        if r@.len() != ceil_div(n as int, block as int) {
            assert(n == 0);
        }
    }
    r
}

/// The tiles cut `[0, n)` into consecutive nonempty runs: the first starts
/// at zero, each ends where the next starts, the last ends at `n`, and the
/// position `p` falls in tile `p / block`.
pub proof fn lemma_tiles_partition(n: int, block: int, p: int)
    requires
        block > 0,
        n > 0,
        0 <= p < n,
    ensures
        tile_spec(n, block, 0).0 == 0,
        tile_spec(n, block, ceil_div(n, block) - 1).1 == n,
        forall|i: int|
            0 <= i < ceil_div(n, block) - 1 ==> (#[trigger] tile_spec(n, block, i)).1 == tile_spec(
                n,
                block,
                i + 1,
            ).0,
        forall|i: int|
            0 <= i < ceil_div(n, block) ==> (#[trigger] tile_spec(n, block, i)).0 < tile_spec(
                n,
                block,
                i,
            ).1,
        0 <= p / block < ceil_div(n, block),
        tile_spec(n, block, p / block).0 <= p < tile_spec(n, block, p / block).1,
{
    lemma_ceil_div(n, block);
    let c = ceil_div(n, block);
    assert((c - 1) * block + block >= n) by (nonlinear_arith)
        requires
            c * block >= n,
    ;
    assert forall|i: int| 0 <= i < c - 1 implies (#[trigger] tile_spec(n, block, i)).1 == tile_spec(
        n,
        block,
        i + 1,
    ).0 by {
        assert(i * block + block <= (c - 1) * block && (i + 1) * block == i * block + block) by (nonlinear_arith)
            requires
                i < c - 1,
                block > 0,
        ;
    }
    assert forall|i: int| 0 <= i < c implies (#[trigger] tile_spec(n, block, i)).0 < tile_spec(
        n,
        block,
        i,
    ).1 by {
        assert(i * block <= (c - 1) * block) by (nonlinear_arith)
            requires
                i <= c - 1,
                block > 0,
        ;
    }
    lemma_split(p, block);
    let q = p / block;
    assert(q < c) by (nonlinear_arith)
        requires
            p == q * block + p % block,
            0 <= p % block < block,
            p < n,
            c == 0 || (c - 1) * block < n,
            c * block >= n,
            block > 0,
    ;
}

/// Number of thread blocks of size `block` a GPU launch needs to cover `n`
/// items: `n / block` rounded up.
pub fn grid_dim(n: u32, block: u32) -> (r: u32)
    requires
        block > 0,
        n + block - 1 <= u32::MAX,
    ensures
        r == ceil_div(n as int, block as int),
        (r as int) * (block as int) >= n as int,
        r == 0 || (r as int - 1) * (block as int) < n as int,
{
    proof {
        lemma_ceil_div(n as int, block as int);
    }
    (n + (block - 1)) / block
}

} // verus!
