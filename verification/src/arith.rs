use vstd::prelude::*;
use vstd::arithmetic::div_mod::lemma_fundamental_div_mod_converse;

verus! {

/// Quotient and remainder of `q * d + r` by `d` when `0 <= r < d`.
pub proof fn lemma_div_mod_of(q: int, r: int, d: int)
    requires
        d > 0,
        0 <= r < d,
    ensures
        (q * d + r) / d == q,
        (q * d + r) % d == r,
{
    lemma_fundamental_div_mod_converse(q * d + r, d, q, r);
}

/// A nonnegative `x` is `(x / d) * d + x % d` with `0 <= x % d < d` and
/// `0 <= x / d`.
pub proof fn lemma_split(x: int, d: int)
    requires
        d > 0,
        0 <= x,
    ensures
        x == (x / d) * d + x % d,
        0 <= x % d < d,
        0 <= x / d,
{
    assert(x == (x / d) * d + x % d && 0 <= x % d < d && 0 <= x / d) by (nonlinear_arith)
        requires
            d > 0,
            0 <= x,
    ;
}

/// `x < n * d` bounds the quotient: `x / d < n`.
pub proof fn lemma_div_bound(x: int, n: int, d: int)
    requires
        d > 0,
        0 <= x < n * d,
    ensures
        x / d < n,
{
    lemma_split(x, d);
    assert(x / d < n) by (nonlinear_arith)
        requires
            d > 0,
            x == (x / d) * d + x % d,
            0 <= x % d,
            x < n * d,
    ;
}

/// Row-major positions of a block: `i * d + a < n * d` when `i < n` and `a < d`.
pub proof fn lemma_row_major_lt(i: int, a: int, n: int, d: int)
    requires
        0 <= i < n,
        0 <= a < d,
    ensures
        0 <= i * d + a < n * d,
        i * d + d <= n * d,
{
    assert(0 <= i * d + a && i * d + a < n * d && i * d + d <= n * d) by (nonlinear_arith)
        requires
            0 <= i < n,
            0 <= a < d,
    ;
}

} // verus!
