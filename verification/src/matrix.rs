use vstd::prelude::*;
use crate::arith::{lemma_div_mod_of, lemma_split};

verus! {

/// The `h` by `w` block of a row-major matrix with row stride `n` whose
/// top-left entry is at row `r1`, column `c1`, read row by row.
pub open spec fn submatrix_spec<T>(a: Seq<T>, n: int, r1: int, c1: int, h: int, w: int) -> Seq<T> {
    Seq::new((h * w) as nat, |t: int| a[(r1 + t / w) * n + c1 + t % w])
}

/// Whether every entry of the `h` by `w` block at `(r1, c1)` of a row-major
/// matrix with stride `n` lies below `len`.
pub open spec fn block_fits(len: int, n: int, r1: int, c1: int, h: int, w: int) -> bool {
    h > 0 && w > 0 ==> (r1 + h - 1) * n + c1 + w - 1 < len && r1 + h - 1 <= usize::MAX
}

/// Whether buffer position `p` of a stride-`n` matrix falls inside the `h`
/// by `w` block at `(r1, c1)`.
pub open spec fn in_block(p: int, n: int, r1: int, c1: int, h: int, w: int) -> bool {
    n > 0 && r1 <= p / n < r1 + h && c1 <= p % n < c1 + w
}

/// The entry `(i, j)` of a block lies at `(r1 + i) * n + c1 + j`, inside the
/// buffer.
proof fn lemma_block_entry(len: int, n: int, r1: int, c1: int, h: int, w: int, i: int, j: int)
    requires
        block_fits(len, n, r1, c1, h, w),
        0 <= r1,
        0 <= c1,
        0 <= n,
        0 <= i < h,
        0 <= j < w,
    ensures
        0 <= (r1 + i) * n <= (r1 + i) * n + c1 + j < len,
        r1 + i <= usize::MAX,
{
    assert(0 <= (r1 + i) * n && (r1 + i) * n <= (r1 + h - 1) * n) by (nonlinear_arith)
        requires
            0 <= r1,
            0 <= n,
            0 <= i < h,
    ;
}

/// A block has `h * w` entries, and its entry `(i, j)` is the matrix entry
/// at row `r1 + i`, column `c1 + j`.
pub proof fn law_submatrix_entry<T>(a: Seq<T>, n: int, r1: int, c1: int, h: int, w: int, i: int, j: int)
    requires
        0 <= i < h,
        0 <= j < w,
    ensures
        submatrix_spec(a, n, r1, c1, h, w).len() == h * w,
        0 <= i * w + j < h * w,
        submatrix_spec(a, n, r1, c1, h, w)[i * w + j] == a[(r1 + i) * n + c1 + j],
{
    crate::arith::lemma_row_major_lt(i, j, h, w);
    lemma_div_mod_of(i, j, w);
}

/// Copies the `h` by `w` block at row `r1`, column `c1` out of the row-major
/// `n`-column matrix `a`.
pub fn get_submatrix<T: Copy>(a: &[T], n: usize, r1: usize, c1: usize, h: usize, w: usize) -> (r: Vec<T>)
    requires
        h * w <= usize::MAX,
        block_fits(a@.len() as int, n as int, r1 as int, c1 as int, h as int, w as int),
    ensures
        r@ == submatrix_spec(a@, n as int, r1 as int, c1 as int, h as int, w as int),
{
    let ghost spec_r = submatrix_spec(a@, n as int, r1 as int, c1 as int, h as int, w as int);
    let alen: usize = a.len();
    let mut r: Vec<T> = Vec::new();
    let mut i: usize = 0;
    while i < h
        invariant
            h * w <= usize::MAX,
            alen == a@.len(),
            block_fits(a@.len() as int, n as int, r1 as int, c1 as int, h as int, w as int),
            spec_r == submatrix_spec(a@, n as int, r1 as int, c1 as int, h as int, w as int),
            i <= h,
            r@.len() == i * w,
            forall|t: int| 0 <= t < r@.len() ==> r@[t] == #[trigger] spec_r[t],
        decreases h - i,
    {
        assert(i * w + w <= h * w) by (nonlinear_arith)
            requires
                i < h,
        ;
        let mut j: usize = 0;
        while j < w
            invariant
                h * w <= usize::MAX,
                alen == a@.len(),
                block_fits(a@.len() as int, n as int, r1 as int, c1 as int, h as int, w as int),
                spec_r == submatrix_spec(a@, n as int, r1 as int, c1 as int, h as int, w as int),
                i < h,
                j <= w,
                i * w + w <= h * w,
                r@.len() == i * w + j,
                forall|t: int| 0 <= t < r@.len() ==> r@[t] == #[trigger] spec_r[t],
            decreases w - j,
        {
            proof {
                lemma_block_entry(a@.len() as int, n as int, r1 as int, c1 as int, h as int, w as int, i as int, j as int);
                lemma_div_mod_of(i as int, j as int, w as int);
            }
            let v = a[(r1 + i) * n + (c1 + j)];
            proof {
                assert(spec_r[i * w + j] == v);
            }
            r.push(v);
            j = j + 1;
        }
        assert((i + 1) * w == i * w + w) by (nonlinear_arith);
        i = i + 1;
    }
    assert(r@ =~= spec_r);
    r
}

/// Entry `p` of `old` after the `h` by `w` block at `(r1, c1)` of the
/// stride-`n` matrix is overwritten by the row-major block `sm`.
pub open spec fn put_block_entry<T>(old: Seq<T>, sm: Seq<T>, n: int, r1: int, c1: int, h: int, w: int, p: int) -> T {
    if in_block(p, n, r1, c1, h, w) {
        sm[(p / n - r1) * w + (p % n - c1)]
    } else {
        old[p]
    }
}

/// Writes the row-major `h` by `w` block `sm` into the row-major `n`-column
/// matrix `c` with its top-left entry at row `r1`, column `c1`; everything
/// outside the block is left alone.
pub fn put_submatrix<T: Copy>(c: &mut [T], n: usize, r1: usize, c1: usize, h: usize, w: usize, sm: &[T])
    requires
        c1 + w <= n,
        block_fits(old(c)@.len() as int, n as int, r1 as int, c1 as int, h as int, w as int),
        h * w <= sm@.len(),
    ensures
        final(c)@.len() == old(c)@.len(),
        forall|p: int|
            0 <= p < final(c)@.len() ==> #[trigger] final(c)@[p] == put_block_entry(
                old(c)@,
                sm@,
                n as int,
                r1 as int,
                c1 as int,
                h as int,
                w as int,
                p,
            ),
{
    let ghost orig = c@;
    let clen: usize = c.len();
    let smlen: usize = sm.len();
    let mut i: usize = 0;
    while i < h
        invariant
            c1 + w <= n,
            block_fits(orig.len() as int, n as int, r1 as int, c1 as int, h as int, w as int),
            h * w <= sm@.len(),
            c@.len() == orig.len(),
            clen == orig.len(),
            smlen == sm@.len(),
            i <= h,
            forall|p: int|
                0 <= p < c@.len() ==> #[trigger] c@[p] == put_block_entry(
                    orig,
                    sm@,
                    n as int,
                    r1 as int,
                    c1 as int,
                    i as int,
                    w as int,
                    p,
                ),
        decreases h - i,
    {
        assert(i * w + w <= h * w) by (nonlinear_arith)
            requires
                i < h,
        ;
        let mut j: usize = 0;
        while j < w
            invariant
                c1 + w <= n,
                block_fits(orig.len() as int, n as int, r1 as int, c1 as int, h as int, w as int),
                h * w <= sm@.len(),
                c@.len() == orig.len(),
                clen == orig.len(),
                smlen == sm@.len(),
                i < h,
                j <= w,
                i * w + w <= h * w,
                forall|p: int|
                    0 <= p < c@.len() ==> #[trigger] c@[p] == if in_block(
                        p,
                        n as int,
                        r1 as int + i as int,
                        c1 as int,
                        1,
                        j as int,
                    ) {
                        sm@[(p / n as int - r1) * w + (p % n as int - c1)]
                    } else {
                        put_block_entry(orig, sm@, n as int, r1 as int, c1 as int, i as int, w as int, p)
                    },
            decreases w - j,
        {
            proof {
                lemma_block_entry(orig.len() as int, n as int, r1 as int, c1 as int, h as int, w as int, i as int, j as int);
                lemma_div_mod_of((r1 + i) as int, (c1 + j) as int, n as int);
            }
            let q: usize = (r1 + i) * n + (c1 + j);
            let v = sm[i * w + j];
            let ghost before = c@;
            c[q] = v;
            proof {
                assert forall|p: int| 0 <= p < c@.len() implies #[trigger] c@[p] == if in_block(
                    p,
                    n as int,
                    r1 as int + i as int,
                    c1 as int,
                    1,
                    j + 1,
                ) {
                    sm@[(p / n as int - r1) * w + (p % n as int - c1)]
                } else {
                    put_block_entry(orig, sm@, n as int, r1 as int, c1 as int, i as int, w as int, p)
                } by {
                    lemma_split(p, n as int);
                    if p != q {
                        assert(c@[p] == before[p]);
                        if p / n as int == r1 + i && p % n as int == c1 + j {
                            assert(p == (r1 + i) * n + (c1 + j));
                        }
                    }
                }
            }
            j = j + 1;
        }
        proof {
            assert forall|p: int| 0 <= p < c@.len() implies #[trigger] c@[p] == put_block_entry(
                orig,
                sm@,
                n as int,
                r1 as int,
                c1 as int,
                i + 1,
                w as int,
                p,
            ) by {
                assert(c@[p] == c@[p]);
            }
        }
        i = i + 1;
    }
}

/// Writing a block sets its entry `(i, j)`, at row `r1 + i` and column
/// `c1 + j`, to `sm[i * w + j]`.
pub proof fn law_put_block_inside<T>(old: Seq<T>, sm: Seq<T>, n: int, r1: int, c1: int, h: int, w: int, i: int, j: int)
    requires
        0 <= r1,
        0 <= c1,
        c1 + w <= n,
        0 <= i < h,
        0 <= j < w,
    ensures
        put_block_entry(old, sm, n, r1, c1, h, w, (r1 + i) * n + c1 + j) == sm[i * w + j],
{
    lemma_div_mod_of(r1 + i, c1 + j, n);
}

/// Writing a block leaves the entry at any row `row` and column `col`
/// outside the block as it was.
pub proof fn law_put_block_outside<T>(
    old: Seq<T>,
    sm: Seq<T>,
    n: int,
    r1: int,
    c1: int,
    h: int,
    w: int,
    row: int,
    col: int,
)
    requires
        0 <= row,
        0 <= col < n,
        !(r1 <= row < r1 + h && c1 <= col < c1 + w),
    ensures
        put_block_entry(old, sm, n, r1, c1, h, w, row * n + col) == old[row * n + col],
{
    lemma_div_mod_of(row, col, n);
}

/// The matrix `old` after `put_submatrix` writes the block `sm` at `(r1, c1)`.
pub open spec fn put_block<T>(old: Seq<T>, sm: Seq<T>, n: int, r1: int, c1: int, h: int, w: int) -> Seq<T> {
    Seq::new(old.len(), |p: int| put_block_entry(old, sm, n, r1, c1, h, w, p))
}

/// Reading back the block just written gives the written samples: a
/// `get_submatrix` of the same block undoes a `put_submatrix`.
pub proof fn lemma_get_after_put<T>(old: Seq<T>, sm: Seq<T>, n: int, r1: int, c1: int, h: int, w: int)
    requires
        0 <= r1,
        0 <= c1,
        0 <= h,
        0 <= w,
        c1 + w <= n,
        block_fits(old.len() as int, n, r1, c1, h, w),
        h * w <= sm.len(),
    ensures
        submatrix_spec(put_block(old, sm, n, r1, c1, h, w), n, r1, c1, h, w) == sm.take(h * w),
{
    let new = put_block(old, sm, n, r1, c1, h, w);
    let lhs = submatrix_spec(new, n, r1, c1, h, w);
    assert forall|t: int| 0 <= t < h * w implies #[trigger] lhs[t] == sm[t] by {
        assert(w > 0) by (nonlinear_arith)
            requires
                0 <= t < h * w,
                0 <= h,
        ;
        lemma_split(t, w);
        let i = t / w;
        let j = t % w;
        assert(i < h) by (nonlinear_arith)
            requires
                t == i * w + j,
                0 <= j,
                t < h * w,
                w > 0,
        ;
        lemma_block_entry(old.len() as int, n, r1, c1, h, w, i, j);
        lemma_div_mod_of(r1 + i, c1 + j, n);
    }
    assert(lhs =~= sm.take(h * w));
}

/// Splitting an even-sized square matrix into its four quadrants and writing
/// them back into any buffer of the same size rebuilds the matrix.
pub proof fn lemma_quadrants_rebuild<T>(a: Seq<T>, c: Seq<T>, k: int)
    requires
        k > 0,
        a.len() == 4 * k * k,
        c.len() == a.len(),
        2 * k <= usize::MAX,
    ensures
        ({
            let n = 2 * k;
            let c1 = put_block(c, submatrix_spec(a, n, 0, 0, k, k), n, 0, 0, k, k);
            let c2 = put_block(c1, submatrix_spec(a, n, 0, k, k, k), n, 0, k, k, k);
            let c3 = put_block(c2, submatrix_spec(a, n, k, 0, k, k), n, k, 0, k, k);
            let c4 = put_block(c3, submatrix_spec(a, n, k, k, k, k), n, k, k, k, k);
            c4
        }) == a,
{
    let n = 2 * k;
    assert(n * n == 4 * k * k) by (nonlinear_arith)
        requires
            n == 2 * k,
    ;
    assert((2 * k - 1) * n + 2 * k - 1 < 4 * k * k) by (nonlinear_arith)
        requires
            n == 2 * k,
            k > 0,
    ;
    let c1 = put_block(c, submatrix_spec(a, n, 0, 0, k, k), n, 0, 0, k, k);
    let c2 = put_block(c1, submatrix_spec(a, n, 0, k, k, k), n, 0, k, k, k);
    let c3 = put_block(c2, submatrix_spec(a, n, k, 0, k, k), n, k, 0, k, k);
    let c4 = put_block(c3, submatrix_spec(a, n, k, k, k, k), n, k, k, k, k);
    assert forall|p: int| 0 <= p < a.len() implies #[trigger] c4[p] == a[p] by {
        lemma_split(p, n);
        let row = p / n;
        let col = p % n;
        assert(row < n) by (nonlinear_arith)
            requires
                p == row * n + col,
                0 <= col,
                p < n * n,
                n > 0,
        ;
        let qi: int = if row < k { 0 } else { k };
        let qj: int = if col < k { 0 } else { k };
        let t = (row - qi) * k + (col - qj);
        assert(0 <= t < k * k) by (nonlinear_arith)
            requires
                0 <= row - qi < k,
                0 <= col - qj < k,
                t == (row - qi) * k + (col - qj),
        ;
        lemma_div_mod_of(row - qi, col - qj, k);
        assert(p == (qi + t / k) * n + qj + t % k);
    }
    assert(c4 =~= a);
}

/// `a` padded to a `size` by `size` square with `zero` below and to the right.
pub open spec fn padded_entry<T>(a: Seq<Seq<T>>, zero: T, i: int, j: int) -> T {
    if a.len() > 0 && i < a.len() && j < a[0].len() {
        a[i][j]
    } else {
        zero
    }
}

/// Embeds the matrix `a` in the top-left corner of a `size` by `size` square
/// filled with `zero`. The width of `a` is that of its first row.
pub fn pad_matrix<T: Copy>(a: &Vec<Vec<T>>, size: usize, zero: T) -> (r: Vec<Vec<T>>)
    requires
        a@.len() <= size,
        a@.len() > 0 ==> a@[0]@.len() <= size,
        forall|i: int| 0 <= i < a@.len() ==> a@[0]@.len() <= #[trigger] a@[i]@.len(),
    ensures
        r@.len() == size,
        forall|i: int| 0 <= i < size ==> (#[trigger] r@[i])@.len() == size,
        forall|i: int, j: int|
            0 <= i < size && 0 <= j < size ==> #[trigger] r@[i]@[j] == padded_entry(
                a@.map_values(|row: Vec<T>| row@),
                zero,
                i,
                j,
            ),
        forall|i: int, j: int|
            0 <= i < a@.len() && 0 <= j < a@[0]@.len() ==> #[trigger] r@[i]@[j] == a@[i]@[j],
        forall|i: int, j: int|
            0 <= i < size && 0 <= j < size && !(i < a@.len() && j < a@[0]@.len())
                ==> #[trigger] r@[i]@[j] == zero,
{
    let ghost rows = a@.map_values(|row: Vec<T>| row@);
    let m: usize = a.len();
    let cols: usize = if m > 0 { a[0].len() } else { 0 };
    let mut r: Vec<Vec<T>> = Vec::new();
    let mut i: usize = 0;
    while i < size
        invariant
            m == a@.len(),
            m <= size,
            rows == a@.map_values(|row: Vec<T>| row@),
            m > 0 ==> cols == a@[0]@.len(),
            m == 0 ==> cols == 0,
            forall|q: int| 0 <= q < a@.len() ==> a@[0]@.len() <= #[trigger] a@[q]@.len(),
            i <= size,
            r@.len() == i,
            forall|q: int| 0 <= q < i ==> (#[trigger] r@[q])@.len() == size,
            forall|q: int, j: int|
                0 <= q < i && 0 <= j < size ==> #[trigger] r@[q]@[j] == padded_entry(rows, zero, q, j),
        decreases size - i,
    {
        let mut row: Vec<T> = Vec::new();
        let mut j: usize = 0;
        while j < size
            invariant
                m == a@.len(),
                m <= size,
                rows == a@.map_values(|row: Vec<T>| row@),
                m > 0 ==> cols == a@[0]@.len(),
                m == 0 ==> cols == 0,
                forall|q: int| 0 <= q < a@.len() ==> a@[0]@.len() <= #[trigger] a@[q]@.len(),
                i < size,
                j <= size,
                row@.len() == j,
                forall|t: int| 0 <= t < j ==> #[trigger] row@[t] == padded_entry(rows, zero, i as int, t),
            decreases size - j,
        {
            if i < m && j < cols {
                row.push(a[i][j]);
            } else {
                row.push(zero);
            }
            j = j + 1;
        }
        r.push(row);
        i = i + 1;
    }
    proof {
        assert forall|i: int, j: int|
            0 <= i < a@.len() && 0 <= j < a@[0]@.len() implies #[trigger] r@[i]@[j] == a@[i]@[j] by {
            assert(rows[i] == a@[i]@);
        }
    }
    r
}

/// Padding keeps every entry of the matrix where it was, the width being
/// that of the first row, and fills every other position with `zero`.
pub proof fn law_padding_keeps_entries<T>(a: Seq<Seq<T>>, zero: T, i: int, j: int)
    requires
        0 <= i,
        0 <= j,
    ensures
        i < a.len() && j < a[0].len() ==> padded_entry(a, zero, i, j) == a[i][j],
        !(i < a.len() && j < a[0].len()) ==> padded_entry(a, zero, i, j) == zero,
{
}

/// Whether `a` has at least `rows` rows, each at least `cols` long.
pub open spec fn covers<T>(a: Seq<Seq<T>>, rows: int, cols: int) -> bool {
    rows <= a.len() && forall|i: int| 0 <= i < rows ==> cols <= #[trigger] a[i].len()
}

/// The rows of a nested matrix as sequences.
pub open spec fn rows_of<T>(a: Seq<Vec<T>>) -> Seq<Seq<T>> {
    a.map_values(|row: Vec<T>| row@)
}

/// The rows of a nested matrix are its inner vectors, in order.
pub proof fn law_rows_of<T>(a: Seq<Vec<T>>)
    ensures
        rows_of(a).len() == a.len(),
        forall|i: int| 0 <= i < a.len() ==> #[trigger] rows_of(a)[i] == a[i]@,
{
}

/// The `k` by `k` block of the nested matrix `a` whose top-left entry is at
/// row `row_off`, column `col_off`.
pub fn quadrant<T: Copy>(a: &Vec<Vec<T>>, k: usize, row_off: usize, col_off: usize) -> (r: Vec<Vec<T>>)
    requires
        row_off + k <= usize::MAX,
        col_off + k <= usize::MAX,
        covers(rows_of(a@), row_off + k as int, col_off + k as int),
    ensures
        r@.len() == k,
        forall|i: int| 0 <= i < k ==> (#[trigger] r@[i])@.len() == k,
        forall|i: int, j: int|
            0 <= i < k && 0 <= j < k ==> #[trigger] r@[i]@[j] == a@[i + row_off]@[j + col_off],
{
    let mut r: Vec<Vec<T>> = Vec::new();
    let mut i: usize = 0;
    while i < k
        invariant
            row_off + k <= usize::MAX,
            col_off + k <= usize::MAX,
            covers(rows_of(a@), row_off + k as int, col_off + k as int),
            i <= k,
            r@.len() == i,
            forall|q: int| 0 <= q < i ==> (#[trigger] r@[q])@.len() == k,
            forall|q: int, j: int|
                0 <= q < i && 0 <= j < k ==> #[trigger] r@[q]@[j] == a@[q + row_off]@[j + col_off],
        decreases k - i,
    {
        let mut row: Vec<T> = Vec::new();
        let mut j: usize = 0;
        assert(rows_of(a@)[i + row_off] == a@[i + row_off]@);
        while j < k
            invariant
                row_off + k <= usize::MAX,
                col_off + k <= usize::MAX,
                covers(rows_of(a@), row_off + k as int, col_off + k as int),
                a@[i + row_off]@.len() >= col_off + k,
                i < k,
                j <= k,
                row@.len() == j,
                forall|t: int| 0 <= t < j ==> #[trigger] row@[t] == a@[i + row_off]@[t + col_off],
            decreases k - j,
        {
            row.push(a[i + row_off][j + col_off]);
            j = j + 1;
        }
        r.push(row);
        i = i + 1;
    }
    r
}

/// Entry `(i, j)` of the `n` by `n` matrix assembled from four quadrants of
/// side `n / 2`; when `n` is odd the last row and column hold `zero`.
pub open spec fn joined_entry<T>(
    c11: Seq<Seq<T>>,
    c12: Seq<Seq<T>>,
    c21: Seq<Seq<T>>,
    c22: Seq<Seq<T>>,
    n: int,
    zero: T,
    i: int,
    j: int,
) -> T {
    let k = n / 2;
    if i < k && j < k {
        c11[i][j]
    } else if i < k && k <= j < 2 * k {
        c12[i][j - k]
    } else if k <= i < 2 * k && j < k {
        c21[i - k][j]
    } else if k <= i < 2 * k && k <= j < 2 * k {
        c22[i - k][j - k]
    } else {
        zero
    }
}

/// Assembles an `n` by `n` matrix from the four quadrants of side `n / 2`:
/// `c11` top left, `c12` top right, `c21` bottom left, `c22` bottom right.
pub fn join_quadrants<T: Copy>(
    c11: &Vec<Vec<T>>,
    c12: &Vec<Vec<T>>,
    c21: &Vec<Vec<T>>,
    c22: &Vec<Vec<T>>,
    n: usize,
    zero: T,
) -> (r: Vec<Vec<T>>)
    requires
        covers(rows_of(c11@), n as int / 2, n as int / 2),
        covers(rows_of(c12@), n as int / 2, n as int / 2),
        covers(rows_of(c21@), n as int / 2, n as int / 2),
        covers(rows_of(c22@), n as int / 2, n as int / 2),
    ensures
        r@.len() == n,
        forall|i: int| 0 <= i < n ==> (#[trigger] r@[i])@.len() == n,
        forall|i: int, j: int|
            0 <= i < n && 0 <= j < n ==> #[trigger] r@[i]@[j] == joined_entry(
                rows_of(c11@),
                rows_of(c12@),
                rows_of(c21@),
                rows_of(c22@),
                n as int,
                zero,
                i,
                j,
            ),
{
    let k: usize = n / 2;
    let mut r: Vec<Vec<T>> = Vec::new();
    let mut i: usize = 0;
    while i < n
        invariant
            k == n / 2,
            covers(rows_of(c11@), k as int, k as int),
            covers(rows_of(c12@), k as int, k as int),
            covers(rows_of(c21@), k as int, k as int),
            covers(rows_of(c22@), k as int, k as int),
            i <= n,
            r@.len() == i,
            forall|q: int| 0 <= q < i ==> (#[trigger] r@[q])@.len() == n,
            forall|q: int, j: int|
                0 <= q < i && 0 <= j < n ==> #[trigger] r@[q]@[j] == joined_entry(
                    rows_of(c11@),
                    rows_of(c12@),
                    rows_of(c21@),
                    rows_of(c22@),
                    n as int,
                    zero,
                    q,
                    j,
                ),
        decreases n - i,
    {
        let mut row: Vec<T> = Vec::new();
        let mut j: usize = 0;
        while j < n
            invariant
                k == n / 2,
                covers(rows_of(c11@), k as int, k as int),
                covers(rows_of(c12@), k as int, k as int),
                covers(rows_of(c21@), k as int, k as int),
                covers(rows_of(c22@), k as int, k as int),
                i < n,
                j <= n,
                row@.len() == j,
                forall|t: int| 0 <= t < j ==> #[trigger] row@[t] == joined_entry(
                    rows_of(c11@),
                    rows_of(c12@),
                    rows_of(c21@),
                    rows_of(c22@),
                    n as int,
                    zero,
                    i as int,
                    t,
                ),
            decreases n - j,
        {
            let v: T = if i < k && j < k {
                assert(rows_of(c11@)[i as int] == c11@[i as int]@);
                c11[i][j]
            } else if i < k && k <= j && j < 2 * k {
                assert(rows_of(c12@)[i as int] == c12@[i as int]@);
                c12[i][j - k]
            } else if k <= i && i < 2 * k && j < k {
                assert(rows_of(c21@)[i - k] == c21@[i - k]@);
                c21[i - k][j]
            } else if k <= i && i < 2 * k && k <= j && j < 2 * k {
                assert(rows_of(c22@)[i - k] == c22@[i - k]@);
                c22[i - k][j - k]
            } else {
                zero
            };
            row.push(v);
            j = j + 1;
        }
        r.push(row);
        i = i + 1;
    }
    r
}

/// Joining puts each quadrant in its corner: entry `(i, j)` of a quadrant
/// lands at `(i, j)`, `(i, j + k)`, `(i + k, j)` or `(i + k, j + k)` for
/// `k = n / 2`, and when `n` is odd the last row and column are `zero`.
pub proof fn law_joined_entry<T>(
    c11: Seq<Seq<T>>,
    c12: Seq<Seq<T>>,
    c21: Seq<Seq<T>>,
    c22: Seq<Seq<T>>,
    n: int,
    zero: T,
    i: int,
    j: int,
)
    requires
        n >= 0,
        0 <= i < n / 2,
        0 <= j < n / 2,
    ensures
        joined_entry(c11, c12, c21, c22, n, zero, i, j) == c11[i][j],
        joined_entry(c11, c12, c21, c22, n, zero, i, j + n / 2) == c12[i][j],
        joined_entry(c11, c12, c21, c22, n, zero, i + n / 2, j) == c21[i][j],
        joined_entry(c11, c12, c21, c22, n, zero, i + n / 2, j + n / 2) == c22[i][j],
        n % 2 == 1 ==> joined_entry(c11, c12, c21, c22, n, zero, n - 1, j) == zero,
        n % 2 == 1 ==> joined_entry(c11, c12, c21, c22, n, zero, i, n - 1) == zero,
        n % 2 == 1 ==> joined_entry(c11, c12, c21, c22, n, zero, n - 1, n - 1) == zero,
{
}

/// Joining the four quadrants of an even-sized square matrix gives back the
/// matrix.
pub proof fn lemma_join_of_quadrants<T>(a: Seq<Seq<T>>, k: int, zero: T, i: int, j: int)
    requires
        k >= 0,
        covers(a, 2 * k, 2 * k),
        0 <= i < 2 * k,
        0 <= j < 2 * k,
    ensures
        joined_entry(
            Seq::new(k as nat, |r: int| Seq::new(k as nat, |c: int| a[r][c])),
            Seq::new(k as nat, |r: int| Seq::new(k as nat, |c: int| a[r][c + k])),
            Seq::new(k as nat, |r: int| Seq::new(k as nat, |c: int| a[r + k][c])),
            Seq::new(k as nat, |r: int| Seq::new(k as nat, |c: int| a[r + k][c + k])),
            2 * k,
            zero,
            i,
            j,
        ) == a[i][j],
{
}

} // verus!
