use vstd::prelude::*;
use vstd::arithmetic::power2::{is_pow2, is_pow2_exists, is_pow2_equiv, pow2, lemma_pow2, lemma_pow2_unfold};
use vstd::arithmetic::power::pow;

verus! {

/// One step of the bit trick: for an even `x > 1` clearing the lowest set bit
/// of `x` gives zero exactly when it does so for `x / 2`.
proof fn lemma_low_bit_even(x: usize)
    requires
        x > 1,
        x % 2 == 0,
    ensures
        (x & ((x - 1usize) as usize) == 0usize) == ((x / 2) & ((x / 2 - 1) as usize) == 0usize),
{
    assert((x > 1usize && x % 2usize == 0usize) ==> ((x & ((x - 1usize) as usize) == 0usize) == ((x / 2usize) & ((x / 2usize - 1usize) as usize) == 0usize))) by (bit_vector);
}

/// For an odd `x > 1` the lowest set bit is bit zero and another bit stays set.
proof fn lemma_low_bit_odd(x: usize)
    requires
        x > 1,
        x % 2 == 1,
    ensures
        x & ((x - 1usize) as usize) != 0usize,
{
    assert((x > 1usize && x % 2usize == 1usize) ==> (x & ((x - 1usize) as usize) != 0usize)) by (bit_vector);
}

proof fn lemma_bit_trick(x: usize)
    ensures
        (x != 0 && x & ((x - 1usize) as usize) == 0usize) == is_pow2(x as int),
    decreases x,
{
    reveal(is_pow2);
    if x == 0 {
    } else if x == 1 {
        assert(1usize & 0usize == 0usize) by (bit_vector);
    } else if x % 2 == 1 {
        lemma_low_bit_odd(x);
    } else {
        lemma_low_bit_even(x);
        lemma_bit_trick(x / 2);
    }
}

/// Whether `x` is a power of two: `x` is nonzero and clearing its lowest set
/// bit leaves nothing.
pub fn is_power_of_two(x: usize) -> (r: bool)
    ensures
        r == is_pow2_exists(x as int),
{
    proof {
        lemma_bit_trick(x);
        is_pow2_equiv(x as int);
    }
    x != 0 && (x & (x - 1)) == 0
}

/// The smallest power of two that is at least `n` (one for `n` of zero),
/// found by doubling from one.
pub fn next_power_of_two(n: usize) -> (s: usize)
    requires
        n <= usize::MAX / 2 + 1,
    ensures
        is_pow2_exists(s as int),
        n <= s,
        s == 1 || s / 2 < n,
{
    let mut s: usize = 1;
    let ghost mut e: nat = 0;
    proof {
        lemma_pow2(0);
        vstd::arithmetic::power::lemma_pow0(2);
    }
    while s < n
        invariant
            n <= usize::MAX / 2 + 1,
            s as nat == pow2(e),
            s == 1 || s / 2 < n,
            s >= 1,
        decreases 2 * n - s,
    {
        proof {
            lemma_pow2_unfold(e + 1);
        }
        s = s * 2;
        proof {
            e = e + 1;
        }
    }
    proof {
        lemma_pow2(e);
        assert(pow(2, e) == s as int);
    }
    s
}

} // verus!
