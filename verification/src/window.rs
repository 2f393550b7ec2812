use vstd::prelude::*;
use crate::arith::{lemma_div_mod_of, lemma_split, lemma_div_bound, lemma_row_major_lt};
use crate::image::GrayImage;

verus! {

/// Extent of a valid convolution along one axis: the number of kernel
/// placements that fit inside the image.
pub open spec fn valid_extent(image_extent: int, kernel_extent: int) -> int {
    image_extent - kernel_extent + 1
}

/// The output positions along one axis are exactly the kernel placements
/// that fit: position `x` has an output exactly when `x + kernel_extent`
/// does not pass the image's edge.
pub proof fn law_valid_extent_counts_placements(image_extent: int, kernel_extent: int, x: int)
    requires
        0 <= x,
    ensures
        x < valid_extent(image_extent, kernel_extent) <==> x + kernel_extent <= image_extent,
{
}

/// The `kh` by `kw` window whose top-left corner is `(x, y)`, read row by row.
pub open spec fn window_spec(img: GrayImage, x: int, y: int, kh: int, kw: int) -> Seq<u8> {
    Seq::new((kh * kw) as nat, |t: int| img.pixel(x + t % kw, y + t / kw))
}

/// Whether every `kh` by `kw` window with its corner inside an `oh` by `ow`
/// grid lies inside the image.
pub open spec fn windows_fit(img: GrayImage, oh: int, ow: int, kh: int, kw: int) -> bool {
    oh > 0 && ow > 0 ==> (ow + kw - 1 <= img.width_spec() && oh + kh - 1 <= img.height_spec())
}

/// The im2col matrix: one row of `kh * kw` samples per output pixel, output
/// pixels in row-major order over an `oh` by `ow` grid, each row holding the
/// window of that pixel.
pub open spec fn im2col_spec(img: GrayImage, oh: int, ow: int, kh: int, kw: int) -> Seq<u8> {
    Seq::new(
        (oh * ow * (kh * kw)) as nat,
        |j: int|
            {
                let i = j / (kh * kw);
                window_spec(img, i % ow, i / ow, kh, kw)[j % (kh * kw)]
            },
    )
}

/// Output size `(width, height)` of a valid convolution of a `width` by
/// `height` image with a kernel of `kh` rows and `kw` columns.
pub fn output_dimensions(width: u32, height: u32, kh: usize, kw: usize) -> (r: (u32, u32))
    requires
        kw <= width,
        kh <= height,
        kw > 0 || width < u32::MAX,
        kh > 0 || height < u32::MAX,
    ensures
        r.0 == valid_extent(width as int, kw as int),
        r.1 == valid_extent(height as int, kh as int),
        r.0 == width - kw + 1,
        r.1 == height - kh + 1,
{
    let output_width = width - kw as u32 + 1;
    let output_height = height - kh as u32 + 1;
    (output_width, output_height)
}

/// Every kernel placement of a valid convolution lies inside the image: the
/// output grid of `output_dimensions` satisfies `windows_fit`.
pub proof fn lemma_output_windows_fit(img: GrayImage, kh: int, kw: int)
    requires
        0 <= kw <= img.width_spec(),
        0 <= kh <= img.height_spec(),
    ensures
        windows_fit(
            img,
            valid_extent(img.height_spec() as int, kh),
            valid_extent(img.width_spec() as int, kw),
            kh,
            kw,
        ),
{
}

/// A window holds `kh * kw` samples, and its sample for kernel position
/// `(kx, ky)` is the image sample at `(x + kx, y + ky)`.
pub proof fn law_window_entry(img: GrayImage, x: int, y: int, kh: int, kw: int, kx: int, ky: int)
    requires
        0 <= kx < kw,
        0 <= ky < kh,
    ensures
        window_spec(img, x, y, kh, kw).len() == kh * kw,
        0 <= ky * kw + kx < kh * kw,
        window_spec(img, x, y, kh, kw)[ky * kw + kx] == img.pixel(x + kx, y + ky),
{
    lemma_row_major_lt(ky, kx, kh, kw);
    lemma_div_mod_of(ky, kx, kw);
}

/// The im2col matrix and its transpose both hold one entry per output pixel
/// and kernel position.
pub proof fn law_im2col_sizes(img: GrayImage, oh: int, ow: int, kh: int, kw: int)
    requires
        0 <= oh,
        0 <= ow,
        0 <= kh,
        0 <= kw,
    ensures
        im2col_spec(img, oh, ow, kh, kw).len() == oh * ow * (kh * kw),
        im2col_columns_spec(img, oh, ow, kh, kw).len() == oh * ow * (kh * kw),
{
    assert(0 <= oh * ow * (kh * kw) && (kh * kw) * (oh * ow) == oh * ow * (kh * kw)) by (nonlinear_arith)
        requires
            0 <= oh,
            0 <= ow,
            0 <= kh,
            0 <= kw,
    ;
}

/// The samples of the `kh` by `kw` window with top-left corner `(x, y)`, row
/// by row; the window must lie inside the image.
pub fn window(image: &GrayImage, x: usize, y: usize, kh: usize, kw: usize) -> (r: Vec<u8>)
    requires
        image.wf(),
        kh > 0 && kw > 0 ==> (x + kw <= image.width_spec() && y + kh <= image.height_spec()),
        kh * kw <= usize::MAX,
    ensures
        r@ == window_spec(*image, x as int, y as int, kh as int, kw as int),
{
    let mut r: Vec<u8> = Vec::new();
    let mut ky: usize = 0;
    while ky < kh
        invariant
            image.wf(),
            kh > 0 && kw > 0 ==> (x + kw <= image.width_spec() && y + kh <= image.height_spec()),
            kh * kw <= usize::MAX,
            ky <= kh,
            r@.len() == ky * kw,
            forall|t: int|
                0 <= t < r@.len() ==> r@[t] == #[trigger] window_spec(
                    *image,
                    x as int,
                    y as int,
                    kh as int,
                    kw as int,
                )[t],
        decreases kh - ky,
    {
        let mut kx: usize = 0;
        assert(ky * kw + kw <= kh * kw) by (nonlinear_arith)
            requires
                ky < kh,
        ;
        while kx < kw
            invariant
                image.wf(),
                kh > 0 && kw > 0 ==> (x + kw <= image.width_spec() && y + kh <= image.height_spec()),
                kh * kw <= usize::MAX,
                ky < kh,
                kx <= kw,
                r@.len() == ky * kw + kx,
                ky * kw + kw <= kh * kw,
                forall|t: int|
                    0 <= t < r@.len() ==> r@[t] == #[trigger] window_spec(
                        *image,
                        x as int,
                        y as int,
                        kh as int,
                        kw as int,
                    )[t],
            decreases kw - kx,
        {
            let p = image.get_pixel((x + kx) as u32, (y + ky) as u32);
            proof {
                let t = ky * kw + kx;
                lemma_div_mod_of(ky as int, kx as int, kw as int);
                assert(window_spec(*image, x as int, y as int, kh as int, kw as int)[t as int] == p);
            }
            r.push(p);
            kx = kx + 1;
        }
        assert((ky + 1) * kw == ky * kw + kw) by (nonlinear_arith);
        ky = ky + 1;
    }
    assert(r@ =~= window_spec(*image, x as int, y as int, kh as int, kw as int));
    r
}

/// The im2col matrix of the image for an `oh` by `ow` grid of output pixels
/// and a `kh` by `kw` kernel, flattened row-major: row `i` holds the window of
/// output pixel `(i % ow, i / ow)`.
pub fn im2col(image: &GrayImage, kh: usize, kw: usize, oh: usize, ow: usize) -> (r: Vec<u8>)
    requires
        image.wf(),
        0 < kh * kw <= usize::MAX,
        windows_fit(*image, oh as int, ow as int, kh as int, kw as int),
        oh * ow * (kh * kw) <= usize::MAX,
    ensures
        r@ == im2col_spec(*image, oh as int, ow as int, kh as int, kw as int),
{
    let k: usize = kh * kw;
    assert(oh * ow <= oh * ow * k) by (nonlinear_arith)
        requires
            k >= 1,
    ;
    let n: usize = oh * ow;
    let ghost full = im2col_spec(*image, oh as int, ow as int, kh as int, kw as int);
    let mut r: Vec<u8> = Vec::new();
    let mut i: usize = 0;
    while i < n
        invariant
            image.wf(),
            k == kh * kw,
            k > 0,
            n == oh * ow,
            windows_fit(*image, oh as int, ow as int, kh as int, kw as int),
            n * k <= usize::MAX,
            full == im2col_spec(*image, oh as int, ow as int, kh as int, kw as int),
            i <= n,
            r@.len() == i * k,
            forall|j: int| 0 <= j < r@.len() ==> r@[j] == #[trigger] full[j],
        decreases n - i,
    {
        let y: usize = i / ow;
        let x: usize = i % ow;
        proof {
            lemma_div_bound(i as int, oh as int, ow as int);
            lemma_row_major_lt(i as int, 0, n as int, k as int);
        }
        let mut w = window(image, x, y, kh, kw);
        let ghost before = r@;
        r.append(&mut w);
        proof {
            assert forall|j: int| 0 <= j < r@.len() implies #[trigger] r@[j] == full[j] by {
                if j >= before.len() {
                    let t = j - i * k;
                    lemma_div_mod_of(i as int, t, k as int);
                    assert(j == i * k + t);
                }
            }
            assert((i + 1) * k == i * k + k) by (nonlinear_arith);
        }
        i = i + 1;
    }
    assert(r@ =~= full);
    r
}

/// The transposed im2col matrix, row-major: `kh * kw` rows, one per kernel
/// position, each holding that position's sample for every output pixel of
/// the `oh` by `ow` grid in row-major order.
pub open spec fn im2col_columns_spec(img: GrayImage, oh: int, ow: int, kh: int, kw: int) -> Seq<u8> {
    Seq::new(
        ((kh * kw) * (oh * ow)) as nat,
        |j: int|
            {
                let t = j / (oh * ow);
                let c = j % (oh * ow);
                img.pixel(c % ow + t % kw, c / ow + t / kw)
            },
    )
}

/// The transposed im2col matrix: column `c` holds the window of output pixel
/// `(c % ow, c / ow)`, so entry `(t, c)` sits at `t * (oh * ow) + c`.
pub fn im2col_columns(image: &GrayImage, kh: usize, kw: usize, oh: usize, ow: usize) -> (r: Vec<u8>)
    requires
        image.wf(),
        kh * kw <= usize::MAX,
        windows_fit(*image, oh as int, ow as int, kh as int, kw as int),
        oh * ow <= usize::MAX,
    ensures
        r@ == im2col_columns_spec(*image, oh as int, ow as int, kh as int, kw as int),
{
    let k: usize = kh * kw;
    let n: usize = oh * ow;
    let ghost full = im2col_columns_spec(*image, oh as int, ow as int, kh as int, kw as int);
    let mut r: Vec<u8> = Vec::new();
    let mut t: usize = 0;
    while t < k
        invariant
            image.wf(),
            k == kh * kw,
            n == oh * ow,
            windows_fit(*image, oh as int, ow as int, kh as int, kw as int),
            full == im2col_columns_spec(*image, oh as int, ow as int, kh as int, kw as int),
            t <= k,
            r@.len() == t * n,
            forall|j: int| 0 <= j < r@.len() ==> r@[j] == #[trigger] full[j],
        decreases k - t,
    {
        let ky: usize = t / kw;
        let kx: usize = t % kw;
        proof {
            lemma_div_bound(t as int, kh as int, kw as int);
        }
        let mut c: usize = 0;
        while c < n
            invariant
                image.wf(),
                k == kh * kw,
                n == oh * ow,
                windows_fit(*image, oh as int, ow as int, kh as int, kw as int),
                full == im2col_columns_spec(*image, oh as int, ow as int, kh as int, kw as int),
                t < k,
                kw > 0,
                ky == t / kw,
                kx == t % kw,
                ky < kh,
                kx < kw,
                c <= n,
                r@.len() == t * n + c,
                forall|j: int| 0 <= j < r@.len() ==> r@[j] == #[trigger] full[j],
            decreases n - c,
        {
            let y: usize = c / ow;
            let x: usize = c % ow;
            proof {
                lemma_div_bound(c as int, oh as int, ow as int);
                lemma_row_major_lt(t as int, c as int, k as int, n as int);
                lemma_div_mod_of(t as int, c as int, n as int);
            }
            let p = image.get_pixel((x + kx) as u32, (y + ky) as u32);
            r.push(p);
            c = c + 1;
        }
        assert((t + 1) * n == t * n + n) by (nonlinear_arith);
        t = t + 1;
    }
    assert(k * n == (kh * kw) * (oh * ow));
    assert(r@ =~= full);
    r
}

/// The transposed im2col matrix is the transpose of the im2col matrix:
/// entry `(t, c)` of the one is entry `(c, t)` of the other.
pub proof fn lemma_columns_transpose(img: GrayImage, oh: int, ow: int, kh: int, kw: int, c: int, t: int)
    requires
        0 <= c < oh * ow,
        0 <= t < kh * kw,
        ow > 0,
        kw > 0,
    ensures
        im2col_columns_spec(img, oh, ow, kh, kw)[t * (oh * ow) + c] == im2col_spec(img, oh, ow, kh, kw)[c
            * (kh * kw) + t],
{
    lemma_row_major_lt(t, c, kh * kw, oh * ow);
    lemma_row_major_lt(c, t, oh * ow, kh * kw);
    lemma_div_mod_of(t, c, oh * ow);
    lemma_div_mod_of(c, t, kh * kw);
    assert((kh * kw) * (oh * ow) == oh * ow * (kh * kw)) by (nonlinear_arith);
}

/// Each row of the im2col matrix is the window of its output pixel: the entry
/// for output pixel `(x, y)` and kernel position `(kx, ky)` is the image
/// sample at `(x + kx, y + ky)`.
pub proof fn lemma_im2col_entry(
    img: GrayImage,
    oh: int,
    ow: int,
    kh: int,
    kw: int,
    x: int,
    y: int,
    kx: int,
    ky: int,
)
    requires
        0 <= x < ow,
        0 <= y < oh,
        0 <= kx < kw,
        0 <= ky < kh,
    ensures
        0 <= (y * ow + x) * (kh * kw) + ky * kw + kx < oh * ow * (kh * kw),
        im2col_spec(img, oh, ow, kh, kw)[(y * ow + x) * (kh * kw) + ky * kw + kx] == img.pixel(
            x + kx,
            y + ky,
        ),
{
    let i = y * ow + x;
    let t = ky * kw + kx;
    lemma_row_major_lt(y, x, oh, ow);
    lemma_row_major_lt(ky, kx, kh, kw);
    lemma_row_major_lt(i, t, oh * ow, kh * kw);
    lemma_div_mod_of(i, t, kh * kw);
    lemma_div_mod_of(y, x, ow);
    lemma_div_mod_of(ky, kx, kw);
}

} // verus!
