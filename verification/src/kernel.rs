use vstd::prelude::*;
use crate::arith::{lemma_div_mod_of, lemma_split};

verus! {

/// The rows of a kernel as sequences.
pub open spec fn kernel_rows<T>(kernel: Seq<&[T]>) -> Seq<Seq<T>> {
    kernel.map_values(|row: &[T]| row@)
}

/// Whether each of the `kh` rows of `rows` holds at least `kw` weights.
pub open spec fn rows_at_least<T>(rows: Seq<Seq<T>>, kw: int) -> bool {
    forall|i: int| 0 <= i < rows.len() ==> kw <= #[trigger] rows[i].len()
}

/// The first `kw` weights of each row, row after row.
pub open spec fn row_major<T>(rows: Seq<Seq<T>>, kw: int) -> Seq<T> {
    Seq::new((rows.len() * kw) as nat, |t: int| rows[t / kw][t % kw])
}

/// The kernel turned by half a turn (rows and columns both reversed), read
/// row by row over the width of the first row.
pub open spec fn flipped_spec<T>(rows: Seq<Seq<T>>) -> Seq<T> {
    let kh = rows.len() as int;
    let kw = rows[0].len() as int;
    Seq::new((kh * kw) as nat, |t: int| rows[kh - 1 - t / kw][kw - 1 - t % kw])
}

/// The rows of a kernel are its slices, one per row, in order.
pub proof fn law_kernel_rows<T>(kernel: Seq<&[T]>)
    ensures
        kernel_rows(kernel).len() == kernel.len(),
        forall|i: int| 0 <= i < kernel.len() ==> #[trigger] kernel_rows(kernel)[i] == kernel[i]@,
{
}

/// Row-major order puts weight `(i, j)` at position `i * kw + j`.
pub proof fn law_row_major_entry<T>(rows: Seq<Seq<T>>, kw: int, i: int, j: int)
    requires
        0 <= i < rows.len(),
        0 <= j < kw,
    ensures
        row_major(rows, kw).len() == rows.len() * kw,
        0 <= i * kw + j < rows.len() * kw,
        row_major(rows, kw)[i * kw + j] == rows[i][j],
{
    crate::arith::lemma_row_major_lt(i, j, rows.len() as int, kw);
    lemma_div_mod_of(i, j, kw);
}

/// The kernel turned by half a turn has `kh * kw` weights, and its entry
/// `(y, x)` is the original entry `(kh - 1 - y, kw - 1 - x)`.
pub proof fn law_flipped_entry<T>(rows: Seq<Seq<T>>, y: int, x: int)
    requires
        0 <= y < rows.len(),
        0 <= x < rows[0].len(),
    ensures
        flipped_spec(rows).len() == rows.len() * rows[0].len(),
        0 <= y * rows[0].len() + x < rows.len() * rows[0].len(),
        flipped_spec(rows)[y * rows[0].len() + x] == rows[rows.len() - 1 - y][rows[0].len() - 1 - x],
{
    crate::arith::lemma_row_major_lt(y, x, rows.len() as int, rows[0].len() as int);
    lemma_div_mod_of(y, x, rows[0].len() as int);
}

/// All weights of the kernel, row after row.
pub fn flatten_kernel<T: Copy>(kernel: &[&[T]]) -> (r: Vec<T>)
    ensures
        r@ == kernel_rows(kernel@).flatten(),
{
    let ghost rows = kernel_rows(kernel@);
    let mut r: Vec<T> = Vec::new();
    let kh: usize = kernel.len();
    let mut i: usize = 0;
    while i < kh
        invariant
            kh == kernel@.len(),
            rows == kernel_rows(kernel@),
            i <= kh,
            r@ == rows.take(i as int).flatten(),
        decreases kh - i,
    {
        let row: &[T] = kernel[i];
        let kw: usize = row.len();
        let mut j: usize = 0;
        while j < kw
            invariant
                kh == kernel@.len(),
                rows == kernel_rows(kernel@),
                i < kh,
                row@ == rows[i as int],
                kw == row@.len(),
                j <= kw,
                r@ == rows.take(i as int).flatten() + row@.take(j as int),
            decreases kw - j,
        {
            let ghost before = r@;
            r.push(row[j]);
            proof {
                assert(row@.take(j + 1) =~= row@.take(j as int).push(row@[j as int]));
                assert(r@ =~= rows.take(i as int).flatten() + row@.take(j + 1));
            }
            j = j + 1;
        }
        proof {
            assert(rows.take(i + 1) =~= rows.take(i as int).push(rows[i as int]));
            rows.take(i as int).lemma_flatten_push(rows[i as int]);
            assert(row@.take(kw as int) =~= row@);
        }
        i = i + 1;
    }
    assert(rows.take(kh as int) =~= rows);
    r
}

/// The kernel turned by half a turn, row by row: entry `(y, x)` of the
/// result is `kernel[kh - 1 - y][kw - 1 - x]`, where `kh` is the number of
/// rows and `kw` the length of the first.
pub fn flip_kernel<T: Copy>(kernel: &[&[T]]) -> (r: Vec<T>)
    requires
        kernel@.len() > 0,
        rows_at_least(kernel_rows(kernel@), kernel@[0]@.len() as int),
    ensures
        r@ == flipped_spec(kernel_rows(kernel@)),
{
    let ghost rows = kernel_rows(kernel@);
    let kh: usize = kernel.len();
    let kw: usize = kernel[0].len();
    assert(rows[0] == kernel@[0]@);
    let mut r: Vec<T> = Vec::new();
    let mut y: usize = 0;
    while y < kh
        invariant
            kh == kernel@.len(),
            kh > 0,
            rows == kernel_rows(kernel@),
            kw == rows[0].len(),
            rows_at_least(rows, kw as int),
            y <= kh,
            r@.len() == y * kw,
            forall|t: int| 0 <= t < r@.len() ==> r@[t] == #[trigger] flipped_spec(rows)[t],
        decreases kh - y,
    {
        assert(y * kw + kw <= kh * kw) by (nonlinear_arith)
            requires
                y < kh,
        ;
        let row: &[T] = kernel[kh - 1 - y];
        assert(row@ == rows[kh - 1 - y]);
        let mut x: usize = 0;
        while x < kw
            invariant
                kh == kernel@.len(),
                kh > 0,
                rows == kernel_rows(kernel@),
                kw == rows[0].len(),
                rows_at_least(rows, kw as int),
                y < kh,
                row@ == rows[kh - 1 - y],
                x <= kw,
                y * kw + kw <= kh * kw,
                r@.len() == y * kw + x,
                forall|t: int| 0 <= t < r@.len() ==> r@[t] == #[trigger] flipped_spec(rows)[t],
            decreases kw - x,
        {
            proof {
                lemma_div_mod_of(y as int, x as int, kw as int);
            }
            r.push(row[kw - 1 - x]);
            x = x + 1;
        }
        assert((y + 1) * kw == y * kw + kw) by (nonlinear_arith);
        y = y + 1;
    }
    assert(r@ =~= flipped_spec(rows));
    r
}

/// For a kernel whose rows all have the width `kw` of the first, flattening
/// reads the weights row by row: weight `t` sits in row `t / kw`, column
/// `t % kw`.
pub proof fn lemma_flatten_rectangular<T>(rows: Seq<Seq<T>>, kw: int)
    requires
        kw >= 0,
        forall|i: int| 0 <= i < rows.len() ==> (#[trigger] rows[i]).len() == kw,
    ensures
        rows.flatten() == row_major(rows, kw),
    decreases rows.len(),
{
    if rows.len() == 0 {
        assert(row_major(rows, kw) =~= Seq::<T>::empty());
    } else {
        let init = rows.drop_last();
        lemma_flatten_rectangular(init, kw);
        assert(rows =~= init.push(rows.last()));
        init.lemma_flatten_push(rows.last());
        let m = init.len() as int;
        assert((m + 1) * kw == m * kw + kw) by (nonlinear_arith);
        assert forall|t: int| 0 <= t < (m + 1) * kw implies #[trigger] (init.flatten() + rows.last())[t]
            == row_major(rows, kw)[t] by {
            assert(kw > 0) by (nonlinear_arith)
                requires
                    0 <= t < (m + 1) * kw,
                    m >= 0,
                    kw >= 0,
            ;
            lemma_split(t, kw);
            if t < m * kw {
                assert(init.flatten()[t] == row_major(init, kw)[t]);
                assert(t / kw < m) by (nonlinear_arith)
                    requires
                        t == (t / kw) * kw + t % kw,
                        0 <= t % kw,
                        t < m * kw,
                        kw > 0,
                ;
            } else {
                lemma_div_mod_of(m, t - m * kw, kw);
            }
        }
        assert(init.flatten() + rows.last() =~= row_major(rows, kw));
    }
}

/// Turning a rectangular kernel by half a turn reverses its row-major order:
/// flipped weight `t` is weight `kh * kw - 1 - t` of the original.
pub proof fn lemma_flip_reverses<T>(rows: Seq<Seq<T>>)
    requires
        rows.len() > 0,
        forall|i: int| 0 <= i < rows.len() ==> (#[trigger] rows[i]).len() == rows[0].len(),
    ensures
        flipped_spec(rows) == row_major(rows, rows[0].len() as int).reverse(),
{
    let kh = rows.len() as int;
    let kw = rows[0].len() as int;
    let f = flipped_spec(rows);
    let g = row_major(rows, kw).reverse();
    assert forall|t: int| 0 <= t < kh * kw implies #[trigger] f[t] == g[t] by {
        assert(kw > 0) by (nonlinear_arith)
            requires
                0 <= t < kh * kw,
                kh > 0,
                kw >= 0,
        ;
        lemma_split(t, kw);
        let q = t / kw;
        let r = t % kw;
        assert(q < kh) by (nonlinear_arith)
            requires
                t == q * kw + r,
                0 <= r,
                t < kh * kw,
                kw > 0,
        ;
        let u = kh * kw - 1 - t;
        assert(u == (kh - 1 - q) * kw + (kw - 1 - r)) by (nonlinear_arith)
            requires
                u == kh * kw - 1 - t,
                t == q * kw + r,
        ;
        lemma_div_mod_of(kh - 1 - q, kw - 1 - r, kw);
    }
    assert(f =~= g);
}

/// Turning a kernel by half a turn twice gives back its weights.
pub proof fn lemma_flip_twice<T>(rows: Seq<Seq<T>>)
    requires
        rows.len() > 0,
        forall|i: int| 0 <= i < rows.len() ==> (#[trigger] rows[i]).len() == rows[0].len(),
    ensures
        flipped_spec(rows).reverse() == row_major(rows, rows[0].len() as int),
{
    lemma_flip_reverses(rows);
    assert(row_major(rows, rows[0].len() as int).reverse().reverse() =~= row_major(rows, rows[0].len() as int));
}

} // verus!
