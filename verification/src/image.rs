use vstd::prelude::*;
use crate::arith::lemma_split;

verus! {

/// Position of pixel `(x, y)` in the row-major buffer of an image `width` wide.
pub open spec fn pixel_index(width: int, x: int, y: int) -> int {
    y * width + x
}

/// Every in-bounds pixel lies inside the first `width * height` positions of
/// the buffer.
pub proof fn lemma_pixel_index_bounds(width: int, height: int, x: int, y: int)
    requires
        0 <= x < width,
        0 <= y < height,
    ensures
        0 <= pixel_index(width, x, y) < width * height,
{
    assert(y * width + x < width * height) by (nonlinear_arith)
        requires
            0 <= x < width,
            0 <= y < height,
    ;
    assert(0 <= y * width) by (nonlinear_arith)
        requires
            0 <= y,
            0 <= x < width,
    ;
}

/// Samples are stored row by row: the first pixel is at position zero, the
/// next pixel of a row follows it directly, and the pixel below lies one
/// row width further on.
pub proof fn law_pixel_index_row_major(width: int, x: int, y: int)
    ensures
        pixel_index(width, 0, 0) == 0,
        pixel_index(width, x + 1, y) == pixel_index(width, x, y) + 1,
        pixel_index(width, x, y + 1) == pixel_index(width, x, y) + width,
{
    assert((y + 1) * width == y * width + width) by (nonlinear_arith);
}

/// An 8-bit grayscale image: `width` by `height` luma samples stored row by
/// row in one buffer. The buffer may be longer than `width * height`, as a
/// buffer handed to [`GrayImage::from_vec`] may be; the samples past the
/// image are carried along untouched.
pub struct GrayImage {
    width: u32,
    height: u32,
    data: Vec<u8>,
}

impl GrayImage {
    /// Well-formedness: the buffer holds at least `width * height` samples.
    pub closed spec fn wf(&self) -> bool {
        self.width as nat * self.height as nat <= self.data@.len()
    }

    /// Number of columns.
    pub closed spec fn width_spec(&self) -> u32 {
        self.width
    }

    /// Number of rows.
    pub closed spec fn height_spec(&self) -> u32 {
        self.height
    }

    /// The whole sample buffer, row-major.
    pub closed spec fn raw(&self) -> Seq<u8> {
        self.data@
    }

    /// Luma sample at column `x`, row `y`.
    pub open spec fn pixel(&self, x: int, y: int) -> u8 {
        self.raw()[pixel_index(self.width_spec() as int, x, y)]
    }

    /// Whether `(x, y)` lies inside the image.
    pub open spec fn in_bounds(&self, x: int, y: int) -> bool {
        0 <= x < self.width_spec() && 0 <= y < self.height_spec()
    }

    /// An all-black image of the given size.
    pub fn new(width: u32, height: u32) -> (img: GrayImage)
        requires
            width as nat * height as nat <= usize::MAX,
        ensures
            img.wf(),
            img.width_spec() == width,
            img.height_spec() == height,
            img.raw() == Seq::new(width as nat * height as nat, |i: int| 0u8),
    {
        let len: usize = width as usize * height as usize;
        let mut data: Vec<u8> = Vec::new();
        let mut i: usize = 0;
        while i < len
            invariant
                i <= len,
                data@ == Seq::new(i as nat, |k: int| 0u8),
            decreases len - i,
        {
            data.push(0u8);
            i = i + 1;
        }
        GrayImage { width, height, data }
    }

    /// Wraps a row-major buffer. Returns `None` exactly when the buffer holds
    /// fewer than `width * height` samples.
    pub fn from_vec(width: u32, height: u32, buf: Vec<u8>) -> (r: Option<GrayImage>)
        ensures
            r.is_some() <==> width as nat * height as nat <= buf@.len(),
            r matches Some(img) ==> {
                &&& img.wf()
                &&& img.width_spec() == width
                &&& img.height_spec() == height
                &&& img.raw() == buf@
            },
    {
        let w: u64 = width as u64;
        let h: u64 = height as u64;
        assert(w * h <= u64::MAX) by (nonlinear_arith)
            requires
                w <= u32::MAX,
                h <= u32::MAX,
        ;
        let needed: u64 = w * h;
        if needed as u128 <= buf.len() as u128 {
            Some(GrayImage { width, height, data: buf })
        } else {
            None
        }
    }

    /// `(width, height)`.
    pub fn dimensions(&self) -> (r: (u32, u32))
        requires
            self.wf(),
        ensures
            r.0 == self.width_spec(),
            r.1 == self.height_spec(),
            self.width_spec() * self.height_spec() <= self.raw().len(),
    {
        (self.width, self.height)
    }

    /// Number of columns.
    pub fn width(&self) -> (r: u32)
        ensures
            r == self.width_spec(),
    {
        self.width
    }

    /// Number of rows.
    pub fn height(&self) -> (r: u32)
        ensures
            r == self.height_spec(),
    {
        self.height
    }

    /// The sample at `(x, y)`, which must lie inside the image.
    pub fn get_pixel(&self, x: u32, y: u32) -> (r: u8)
        requires
            self.wf(),
            self.in_bounds(x as int, y as int),
        ensures
            r == self.pixel(x as int, y as int),
    {
        let _len: usize = self.data.len();
        proof {
            lemma_pixel_index_bounds(self.width as int, self.height as int, x as int, y as int);
            assert(self.width as int * self.height as int <= self.data@.len());
            assert(0 <= y as int * self.width as int <= y as int * self.width as int + x as int);
        }
        let i: usize = y as usize * self.width as usize + x as usize;
        self.data[i]
    }

    /// Overwrites the sample at `(x, y)`, which must lie inside the image;
    /// every other sample and the size stay as they were.
    pub fn put_pixel(&mut self, x: u32, y: u32, value: u8)
        requires
            old(self).wf(),
            old(self).in_bounds(x as int, y as int),
        ensures
            final(self).wf(),
            final(self).width_spec() == old(self).width_spec(),
            final(self).height_spec() == old(self).height_spec(),
            final(self).raw() == old(self).raw().update(
                pixel_index(old(self).width_spec() as int, x as int, y as int),
                value,
            ),
    {
        let _len: usize = self.data.len();
        proof {
            lemma_pixel_index_bounds(self.width as int, self.height as int, x as int, y as int);
            assert(self.width as int * self.height as int <= self.data@.len());
            assert(0 <= y as int * self.width as int <= y as int * self.width as int + x as int);
        }
        let i: usize = y as usize * self.width as usize + x as usize;
        self.data.set(i, value);
    }

    /// The sample buffer.
    pub fn as_raw(&self) -> (r: &Vec<u8>)
        ensures
            r@ == self.raw(),
    {
        &self.data
    }

    /// Gives up the image and returns its sample buffer.
    pub fn into_raw(self) -> (r: Vec<u8>)
        ensures
            r@ == self.raw(),
    {
        self.data
    }
}

/// The pixel at `(x, y)` is the buffer sample at row-major position
/// `y * width + x`, and `(x, y)` lies inside the image exactly when
/// `x < width` and `y < height`.
pub proof fn law_pixel_reads_buffer(img: GrayImage, x: int, y: int)
    ensures
        img.pixel(x, y) == img.raw()[pixel_index(img.width_spec() as int, x, y)],
        pixel_index(img.width_spec() as int, x, y) == y * img.width_spec() + x,
        img.in_bounds(x, y) <==> (0 <= x < img.width_spec() && 0 <= y < img.height_spec()),
{
}

/// An image of the given size whose samples, in row-major order, are
/// `pixels` followed by black: each `pixels[i]` is written at column
/// `i % width`, row `i / width`.
pub fn from_pixels(width: u32, height: u32, pixels: &Vec<u8>) -> (img: GrayImage)
    requires
        width as nat * height as nat <= usize::MAX,
        pixels@.len() <= width as nat * height as nat,
    ensures
        img.wf(),
        img.width_spec() == width,
        img.height_spec() == height,
        img.raw() == pixels@ + Seq::new(
            (width as nat * height as nat - pixels@.len()) as nat,
            |i: int| 0u8,
        ),
{
    let mut img = GrayImage::new(width, height);
    let ghost total = width as nat * height as nat;
    let n: usize = pixels.len();
    let mut i: usize = 0;
    while i < n
        invariant
            n == pixels@.len(),
            n <= total,
            total == width as nat * height as nat,
            img.wf(),
            img.width_spec() == width,
            img.height_spec() == height,
            i <= n,
            img.raw() == pixels@.take(i as int) + Seq::new((total - i) as nat, |k: int| 0u8),
        decreases n - i,
    {
        assert(width > 0) by (nonlinear_arith)
            requires
                0 <= i < width as int * height as int,
        ;
        let xu: usize = i % width as usize;
        let yu: usize = i / width as usize;
        proof {
            lemma_split(i as int, width as int);
            assert(yu < height) by (nonlinear_arith)
                requires
                    i < width as int * height as int,
                    i as int == yu as int * width as int + xu as int,
                    0 <= xu,
                    width > 0,
            ;
        }
        let x: u32 = xu as u32;
        let y: u32 = yu as u32;
        let ghost prev = img.raw();
        img.put_pixel(x, y, pixels[i]);
        proof {
            assert(pixel_index(width as int, x as int, y as int) == i);
            assert(img.raw() =~= pixels@.take(i + 1) + Seq::new((total - (i + 1)) as nat, |k: int| 0u8));
        }
        i = i + 1;
    }
    assert(pixels@.take(n as int) =~= pixels@);
    img
}

/// Writing a row-major buffer of exactly `width * height` samples pixel by
/// pixel gives the same image as wrapping the buffer directly.
pub proof fn lemma_from_pixels_is_from_vec(width: u32, height: u32, pixels: Seq<u8>)
    requires
        pixels.len() == width as nat * height as nat,
    ensures
        pixels + Seq::new((width as nat * height as nat - pixels.len()) as nat, |i: int| 0u8)
            == pixels,
{
    assert(pixels + Seq::new((width as nat * height as nat - pixels.len()) as nat, |i: int| 0u8)
        =~= pixels);
}

/// Distinct in-bounds coordinates address distinct samples, so writing one
/// pixel leaves every other pixel as it was.
pub proof fn lemma_pixel_index_injective(width: int, height: int, x1: int, y1: int, x2: int, y2: int)
    requires
        0 <= x1 < width,
        0 <= y1 < height,
        0 <= x2 < width,
        0 <= y2 < height,
        pixel_index(width, x1, y1) == pixel_index(width, x2, y2),
    ensures
        x1 == x2 && y1 == y2,
{
    crate::arith::lemma_div_mod_of(y1, x1, width);
    crate::arith::lemma_div_mod_of(y2, x2, width);
}

} // verus!
