use vstd::prelude::*;

verus! {

/// Whether measurement `i` is the first of the fastest among `elapsed`, and
/// below the "never measured" sentinel `u128::MAX`.
pub open spec fn is_first_fastest(elapsed: Seq<u128>, i: int) -> bool {
    &&& 0 <= i < elapsed.len()
    &&& elapsed[i] < u128::MAX
    &&& forall|j: int| 0 <= j < i ==> elapsed[j] > #[trigger] elapsed[i]
    &&& forall|j: int| 0 <= j < elapsed.len() ==> #[trigger] elapsed[j] >= elapsed[i]
}

/// The measurement picked as first fastest is no slower than any other,
/// strictly faster than every earlier one, and there is only one such
/// measurement.
pub proof fn law_first_fastest_is_the_first_minimum(elapsed: Seq<u128>, i: int, k: int)
    ensures
        is_first_fastest(elapsed, i) ==> 0 <= i < elapsed.len() && elapsed[i] < u128::MAX,
        is_first_fastest(elapsed, i) ==> forall|j: int|
            0 <= j < elapsed.len() ==> elapsed[i] <= #[trigger] elapsed[j],
        is_first_fastest(elapsed, i) ==> forall|j: int| 0 <= j < i ==> elapsed[i] < #[trigger] elapsed[j],
        is_first_fastest(elapsed, i) && is_first_fastest(elapsed, k) ==> i == k,
{
    if is_first_fastest(elapsed, i) && is_first_fastest(elapsed, k) {
        if i < k {
            assert(elapsed[i] > elapsed[k]);
            assert(elapsed[i] <= elapsed[k]);
        } else if k < i {
            assert(elapsed[k] > elapsed[i]);
            assert(elapsed[k] <= elapsed[i]);
        }
    }
}

/// Picks the configuration whose trial run was fastest: `elapsed[i]` is the
/// time, in nanoseconds, measured for `candidates[i]`. Ties go to the earlier
/// candidate; when no time is below `u128::MAX`, the answer is `fallback`.
pub fn select_fastest<T: Copy>(candidates: &[T], elapsed: &[u128], fallback: T) -> (r: T)
    requires
        candidates@.len() == elapsed@.len(),
    ensures
        (forall|j: int| 0 <= j < elapsed@.len() ==> elapsed@[j] == u128::MAX) ==> r == fallback,
        (exists|j: int| 0 <= j < elapsed@.len() && elapsed@[j] < u128::MAX) ==> exists|i: int|
            is_first_fastest(elapsed@, i) && r == candidates@[i],
        (exists|j: int| 0 <= j < elapsed@.len() && elapsed@[j] < u128::MAX) ==> exists|i: int|
            {
                &&& 0 <= i < elapsed@.len()
                &&& r == candidates@[i]
                &&& elapsed@[i] < u128::MAX
                &&& forall|j: int| 0 <= j < elapsed@.len() ==> elapsed@[i] <= #[trigger] elapsed@[j]
                &&& forall|j: int| 0 <= j < i ==> elapsed@[i] < #[trigger] elapsed@[j]
            },
{
    let mut best_time: u128 = u128::MAX;
    let mut best: T = fallback;
    let ghost mut best_idx: int = -1;
    let n: usize = candidates.len();
    let mut i: usize = 0;
    while i < n
        invariant
            n == candidates@.len(),
            n == elapsed@.len(),
            i <= n,
            -1 <= best_idx < i,
            best_idx == -1 ==> {
                &&& best == fallback
                &&& best_time == u128::MAX
                &&& forall|j: int| 0 <= j < i ==> elapsed@[j] == u128::MAX
            },
            best_idx >= 0 ==> {
                &&& best == candidates@[best_idx]
                &&& best_time == elapsed@[best_idx]
                &&& best_time < u128::MAX
                &&& forall|j: int| 0 <= j < best_idx ==> elapsed@[j] > best_time
                &&& forall|j: int| 0 <= j < i ==> elapsed@[j] >= best_time
            },
        decreases n - i,
    {
        if elapsed[i] < best_time {
            best_time = elapsed[i];
            best = candidates[i];
            proof {
                best_idx = i as int;
            }
        }
        i = i + 1;
    }
    proof {
        if best_idx >= 0 {
            assert(is_first_fastest(elapsed@, best_idx));
        }
    }
    best
}

} // verus!
