use vstd::prelude::*;
use vstd::arithmetic::power2::{is_pow2_exists, pow2, lemma_pow2, lemma_pow2_unfold, lemma_pow2_strictly_increases, lemma_pow2_pos};
use vstd::arithmetic::power::pow;
use crate::pow2::{is_power_of_two, next_power_of_two};

verus! {

/// How a product of two matrices is to be computed.
#[derive(Debug, Clone, Copy, PartialEq, Eq, Structural)]
pub enum MulPlan {
    /// The inner dimensions differ; there is no product.
    Mismatch,
    /// Both operands are the same square of power-of-two side: recursive
    /// seven-product splitting applies.
    Strassen,
    /// The ordinary triple loop.
    Naive,
}

/// Whether Strassen's scheme applies: both operands are `n` by `n` with `n`
/// a power of two.
pub open spec fn strassen_applies(rows_a: int, cols_a: int, rows_b: int, cols_b: int) -> bool {
    &&& rows_a == cols_a
    &&& cols_a == rows_b
    &&& rows_b == cols_b
    &&& is_pow2_exists(rows_a)
}

/// Strassen's scheme is chosen for two operands exactly when they are squares
/// of one and the same side and that side is a power of two: a non-square
/// left or right operand, or operands of different sizes, never qualify.
pub proof fn law_strassen_needs_equal_pow2_squares(rows_a: int, cols_a: int, rows_b: int, cols_b: int)
    ensures
        strassen_applies(rows_a, cols_a, rows_b, cols_b) ==> rows_a == cols_a && rows_b == cols_b
            && rows_a == rows_b && is_pow2_exists(rows_a),
        (rows_a == cols_a && rows_b == cols_b && rows_a == rows_b && is_pow2_exists(rows_a))
            ==> strassen_applies(rows_a, cols_a, rows_b, cols_b),
        rows_a != cols_a ==> !strassen_applies(rows_a, cols_a, rows_b, cols_b),
        rows_b != cols_b ==> !strassen_applies(rows_a, cols_a, rows_b, cols_b),
{
}

/// Of two powers of two, the larger is at least twice the smaller.
proof fn lemma_pow2_gap(p: int, q: int)
    requires
        is_pow2_exists(p),
        is_pow2_exists(q),
        p < q,
    ensures
        2 * p <= q,
{
    let a = choose|i: nat| pow(2, i) == p;
    let b = choose|i: nat| pow(2, i) == q;
    lemma_pow2(a);
    lemma_pow2(b);
    if b <= a {
        if b < a {
            lemma_pow2_strictly_increases(b, a);
        }
    } else {
        lemma_pow2_unfold(b);
        if b - 1 > a {
            lemma_pow2_strictly_increases(a, (b - 1) as nat);
        }
    }
}

/// Chooses how to multiply an `rows_a` by `cols_a` matrix with an `rows_b`
/// by `cols_b` one: no product when the inner dimensions differ, Strassen
/// when the side of the smallest power-of-two square holding every
/// dimension equals all four dimensions, the triple loop otherwise.
pub fn plan_multiply(rows_a: usize, cols_a: usize, rows_b: usize, cols_b: usize) -> (p: MulPlan)
    requires
        cols_a == rows_b ==> {
            &&& rows_a <= usize::MAX / 2 + 1
            &&& cols_a <= usize::MAX / 2 + 1
            &&& cols_b <= usize::MAX / 2 + 1
        },
    ensures
        p == MulPlan::Mismatch <==> cols_a != rows_b,
        p == MulPlan::Strassen <==> strassen_applies(rows_a as int, cols_a as int, rows_b as int, cols_b as int),
        p == MulPlan::Strassen ==> {
            &&& rows_a == cols_a
            &&& cols_a == rows_b
            &&& rows_b == cols_b
            &&& is_pow2_exists(rows_a as int)
        },
        (rows_a == cols_a && cols_a == rows_b && rows_b == cols_b && is_pow2_exists(rows_a as int))
            ==> p == MulPlan::Strassen,
        p == MulPlan::Naive <==> (cols_a == rows_b && !(rows_a == cols_a && rows_b == cols_b
            && is_pow2_exists(rows_a as int))),
{
    if cols_a != rows_b {
        return MulPlan::Mismatch;
    }
    let n = if rows_a >= cols_a { rows_a } else { cols_a };
    let n = if n >= rows_b { n } else { rows_b };
    let n = if n >= cols_b { n } else { cols_b };
    let s = next_power_of_two(n);
    if rows_a == cols_a && rows_a == rows_b && rows_b == cols_b && rows_a == s && is_power_of_two(s) {
        MulPlan::Strassen
    } else {
        proof {
            if strassen_applies(rows_a as int, cols_a as int, rows_b as int, cols_b as int) {
                let e = choose|i: nat| pow(2, i) == rows_a as int;
                lemma_pow2(e);
                lemma_pow2_pos(e);
                if (rows_a as int) < (s as int) {
                    lemma_pow2_gap(rows_a as int, s as int);
                }
            }
        }
        MulPlan::Naive
    }
}

} // verus!
