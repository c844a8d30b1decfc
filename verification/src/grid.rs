//! The intensity grid every transformation works on.
//!
//! A [`Grid`] keeps its samples in an `image::GrayImage`. The verifier cannot
//! look inside that buffer, so this module names what the buffer holds
//! ([`width_of`], [`height_of`], [`samples_of`]) and states, for each buffer
//! operation that is used, what it does to those three. These statements
//! are taken on trust: they are the functions marked `external_body` below,
//! each with the `image` function it stands for. Everything built on top of
//! them is proved.

use image::{GrayImage, Luma};
use vstd::arithmetic::div_mod::{lemma_fundamental_div_mod, lemma_mod_bound};
use vstd::prelude::*;

verus! {

/// An image of 8-bit intensity samples, origin at the top-left corner.
///
/// The samples live in an `image::GrayImage`, that is an
/// `ImageBuffer<Luma<u8>, Vec<u8>>`. The struct is opaque to the verifier,
/// which knows of it only what [`width_of`], [`height_of`] and
/// [`samples_of`] tell.
#[verifier::external_body]
pub struct Grid {
    buffer: GrayImage,
}

/// Number of columns of the buffer inside `grid`: what `ImageBuffer::width`
/// returns.
pub uninterp spec fn width_of(grid: Grid) -> nat;

/// Number of rows of the buffer inside `grid`: what `ImageBuffer::height`
/// returns.
pub uninterp spec fn height_of(grid: Grid) -> nat;

/// The samples of the buffer inside `grid`, keyed by `(column, row)`: at
/// `(x, y)` the only channel of the pixel that `ImageBuffer::get_pixel(x, y)`
/// returns. Keys outside the image mean nothing.
pub uninterp spec fn samples_of(grid: Grid) -> Map<(int, int), u8>;

/// Mathematical content of a [`Grid`].
pub struct GridView {
    pub width: nat,
    pub height: nat,
    pub samples: Map<(int, int), u8>,
}

impl GridView {
    /// Whether column `x`, row `y` lies inside the image.
    pub open spec fn contains(self, x: int, y: int) -> bool {
        0 <= x < self.width && 0 <= y < self.height
    }

    /// The sample at column `x`, row `y`.
    #[verifier::inline]
    pub open spec fn at(self, x: int, y: int) -> u8 {
        self.samples[(x, y)]
    }

    /// The image with the sample at column `x`, row `y` replaced by `v`.
    pub open spec fn put(self, x: int, y: int, v: u8) -> GridView {
        GridView { samples: self.samples.insert((x, y), v), ..self }
    }

    /// Whether `listed` is the image's samples in row-major order: row 0
    /// from left to right, then row 1, and so on, and nothing else.
    pub open spec fn row_major(self, listed: Seq<u8>) -> bool {
        &&& listed.len() == self.width * self.height
        &&& forall|x: int, y: int|
            self.contains(x, y) ==> listed[y * self.width + x] == #[trigger] self.at(x, y)
    }

    /// Whether the two images have the same dimensions and, at every place
    /// inside them, the same sample.
    pub open spec fn same_image(self, other: GridView) -> bool {
        &&& self.width == other.width
        &&& self.height == other.height
        &&& forall|x: int, y: int|
            self.contains(x, y) ==> #[trigger] self.at(x, y) == other.at(x, y)
    }

    /// Whether every sample of the image is pure black or pure white.
    pub open spec fn is_bilevel(self) -> bool {
        forall|x: int, y: int| self.contains(x, y) ==> bilevel(#[trigger] self.at(x, y))
    }
}

/// Whether `v` is pure black or pure white.
pub open spec fn bilevel(v: u8) -> bool {
    v == 0 || v == 255
}

impl View for Grid {
    type V = GridView;

    open spec fn view(&self) -> GridView {
        GridView { width: width_of(*self), height: height_of(*self), samples: samples_of(*self) }
    }
}

impl Grid {
    /// `ImageBuffer::from_raw`: succeeds exactly when `samples` holds at
    /// least `width * height` bytes, and then takes the pixel at `(x, y)`
    /// from position `y * width + x`.
    #[verifier::external_body]
    fn assemble(width: u32, height: u32, samples: Vec<u8>) -> (made: Option<Grid>)
        ensures
            made.is_some() <==> width * height <= samples.len(),
            made matches Some(grid) ==> {
                &&& width_of(grid) == width
                &&& height_of(grid) == height
                &&& forall|x: int, y: int|
                    0 <= x < width && 0 <= y < height ==> #[trigger] samples_of(grid)[(x, y)]
                        == samples@[y * width + x]
            },
    {
        GrayImage::from_raw(width, height, samples).map(|buffer| Grid { buffer })
    }

    /// `ImageBuffer::clone`: a buffer with the same dimensions and samples.
    #[verifier::external_body]
    pub(crate) fn duplicate(&self) -> (copy: Grid)
        ensures
            width_of(copy) == width_of(*self),
            height_of(copy) == height_of(*self),
            samples_of(copy) == samples_of(*self),
    {
        Grid { buffer: self.buffer.clone() }
    }

    /// `ImageBuffer::width`: the number of columns.
    #[verifier::external_body]
    pub(crate) fn width(&self) -> (w: u32)
        ensures
            w == width_of(*self),
    {
        self.buffer.width()
    }

    /// `ImageBuffer::height`: the number of rows.
    #[verifier::external_body]
    pub(crate) fn height(&self) -> (h: u32)
        ensures
            h == height_of(*self),
    {
        self.buffer.height()
    }

    /// `ImageBuffer::get_pixel`, which panics outside the image, and the
    /// read of the pixel's single channel: the sample at `(x, y)`.
    #[verifier::external_body]
    pub(crate) fn get_pixel(&self, x: u32, y: u32) -> (v: u8)
        requires
            x < width_of(*self),
            y < height_of(*self),
        ensures
            v == samples_of(*self)[(x as int, y as int)],
    {
        self.buffer.get_pixel(x, y)[0]
    }

    /// `ImageBuffer::put_pixel`, which panics outside the image: the sample
    /// at `(x, y)` becomes `v`; the other samples and the dimensions stay.
    #[verifier::external_body]
    pub(crate) fn put_pixel(&mut self, x: u32, y: u32, v: u8)
        requires
            x < width_of(*old(self)),
            y < height_of(*old(self)),
        ensures
            width_of(*final(self)) == width_of(*old(self)),
            height_of(*final(self)) == height_of(*old(self)),
            samples_of(*final(self)) == samples_of(*old(self)).insert((x as int, y as int), v),
    {
        self.buffer.put_pixel(x, y, Luma([v]))
    }

    /// Both dimensions, as `(width, height)`.
    pub fn dimensions(&self) -> (d: (u32, u32))
        ensures
            d.0 == self@.width,
            d.1 == self@.height,
    {
        (self.width(), self.height())
    }

    /// Builds a grid from its samples in row-major order. The vector must
    /// hold exactly `width * height` samples; any other length is refused.
    pub fn from_samples(width: u32, height: u32, samples: Vec<u8>) -> (made: Option<Grid>)
        ensures
            made.is_some() <==> samples.len() == width * height,
            made matches Some(grid) ==> {
                &&& grid@.width == width
                &&& grid@.height == height
                &&& grid@.row_major(samples@)
            },
    {
        assert(width * height <= 0xffff_ffff * 0xffff_ffff) by (nonlinear_arith)
            requires
                0 <= width <= 0xffff_ffff,
                0 <= height <= 0xffff_ffff,
        ;
        let area: u64 = (width as u64) * (height as u64);
        if samples.len() as u64 == area {
            Grid::assemble(width, height, samples)
        } else {
            None
        }
    }

    /// The samples in row-major order.
    pub fn samples(&self) -> (out: Vec<u8>)
        ensures
            self@.row_major(out@),
    {
        let (width, height) = self.dimensions();
        let mut out: Vec<u8> = Vec::new();
        for y in 0..height
            invariant
                width == self@.width,
                height == self@.height,
                out.len() == y * width,
                forall|a: int, b: int|
                    0 <= a < width && 0 <= b < y ==> out@[b * width + a] == #[trigger] self@.at(
                        a,
                        b,
                    ),
        {
            for x in 0..width
                invariant
                    width == self@.width,
                    height == self@.height,
                    y < height,
                    out.len() == y * width + x,
                    forall|a: int, b: int|
                        0 <= a < width && 0 <= b < y ==> out@[b * width + a]
                            == #[trigger] self@.at(a, b),
                    forall|a: int|
                        0 <= a < x ==> out@[y * width + a] == #[trigger] self@.at(a, y as int),
            {
                let ghost before = out@;
                out.push(self.get_pixel(x, y));
                assert forall|a: int, b: int| 0 <= a < width && 0 <= b < y implies out@[b * width
                    + a] == #[trigger] self@.at(a, b) by {
                    lemma_row_major_order(width as int, a, b, 0, y as int);
                    assert(out@[b * width + a] == before[b * width + a]);
                }
            }
            assert((y + 1) * width == y * width + width) by (nonlinear_arith);
        }
        assert(height * width == width * height) by (nonlinear_arith);
        out
    }
}

/// In a row-major layout of rows `width` wide, a cell of an earlier row
/// comes before every cell of a later row.
proof fn lemma_row_major_order(width: int, a: int, b: int, c: int, d: int)
    requires
        0 <= a < width,
        0 <= c,
        0 <= b < d,
    ensures
        0 <= b * width + a < d * width + c,
{
    assert(b * width + width <= d * width) by (nonlinear_arith)
        requires
            b + 1 <= d,
            0 <= width,
    ;
    assert(0 <= b * width) by (nonlinear_arith)
        requires
            0 <= b,
            0 <= width,
    ;
}

/// Every position `k` of a row-major listing belongs to one cell of the
/// image: column `k % width` of row `k / width`.
proof fn lemma_row_major_cell(width: int, height: int, k: int)
    requires
        0 <= width,
        0 <= height,
        0 <= k < width * height,
    ensures
        0 < width,
        0 <= k % width < width,
        0 <= k / width < height,
        (k / width) * width + k % width == k,
{
    assert(width != 0) by (nonlinear_arith)
        requires
            0 <= k < width * height,
    ;
    lemma_fundamental_div_mod(k, width);
    lemma_mod_bound(k, width);
    let row = k / width;
    assert(0 <= row < height) by (nonlinear_arith)
        requires
            0 < width,
            0 <= k < width * height,
            k == width * row + k % width,
            0 <= k % width < width,
    ;
    assert(row * width == width * row) by (nonlinear_arith);
}

/// Two images that are the same have the same row-major listing: what
/// [`Grid::samples`] returns is fixed, byte for byte, by the image.
pub proof fn lemma_row_major_is_determined(
    a: GridView,
    b: GridView,
    listed_a: Seq<u8>,
    listed_b: Seq<u8>,
)
    requires
        a.same_image(b),
        a.row_major(listed_a),
        b.row_major(listed_b),
    ensures
        listed_a == listed_b,
{
    assert forall|k: int| 0 <= k < listed_a.len() implies listed_a[k] == listed_b[k] by {
        lemma_row_major_cell(a.width as int, a.height as int, k);
        let x = k % (a.width as int);
        let y = k / (a.width as int);
        assert(a.contains(x, y));
        assert(b.contains(x, y));
        assert(listed_a[y * a.width + x] == a.at(x, y));
        assert(listed_b[y * b.width + x] == b.at(x, y));
    }
    assert(listed_a =~= listed_b);
}

} // verus!
