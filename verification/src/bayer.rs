//! Ordered dithering against a tiled 4x4 Bayer matrix.

use crate::grid::{Grid, GridView};
use vstd::prelude::*;

verus! {

/// The 4x4 Bayer matrix: the order, from 0 to 15, in which the cells of a
/// tile turn white as the intensity rises.
pub const BAYER_PATTERN: [[u8; 4]; 4] = [
    [0, 8, 2, 10],
    [12, 4, 14, 6],
    [3, 11, 1, 9],
    [15, 7, 13, 5],
];

/// The matrix entry for row `row` and column `col` of a tile.
pub open spec fn rank(row: int, col: int) -> int {
    BAYER_PATTERN[row][col] as int
}

/// The threshold that applies at column `x`, row `y` of an image.
pub open spec fn threshold(x: int, y: int) -> int {
    rank(y % 4, x % 4) * 16 + 8
}

/// The dithered value of a sample `v` that stands at column `x`, row `y`.
pub open spec fn halftone(v: u8, x: int, y: int) -> u8 {
    if threshold(x, y) <= v {
        255
    } else {
        0
    }
}

/// Whether `mono` is the ordered dithering of `gray`: an image of the same
/// dimensions in which every sample is the dithered value of the sample that
/// `gray` has at that place.
pub open spec fn dithers(gray: GridView, mono: GridView) -> bool {
    &&& mono.width == gray.width
    &&& mono.height == gray.height
    &&& forall|x: int, y: int|
        gray.contains(x, y) ==> #[trigger] mono.at(x, y) == halftone(gray.at(x, y), x, y)
}

/// Ordered dithering: every sample becomes white if it reaches the
/// threshold of its place in the tile, black otherwise.
pub fn dither(gray: &Grid) -> (mono: Grid)
    ensures
        dithers(gray@, mono@),
        mono@.width == gray@.width,
        mono@.height == gray@.height,
        mono@.is_bilevel(),
{
    let mut mono = gray.duplicate();
    let (width, height) = mono.dimensions();
    for i in 0..height
        invariant
            width == gray@.width,
            height == gray@.height,
            mono@.width == gray@.width,
            mono@.height == gray@.height,
            forall|x: int, y: int|
                gray@.contains(x, y) ==> #[trigger] mono@.at(x, y) == if y < i {
                    halftone(gray@.at(x, y), x, y)
                } else {
                    gray@.at(x, y)
                },
    {
        for j in 0..width
            invariant
                width == gray@.width,
                height == gray@.height,
                i < height,
                mono@.width == gray@.width,
                mono@.height == gray@.height,
                forall|x: int, y: int|
                    gray@.contains(x, y) ==> #[trigger] mono@.at(x, y) == if y < i || (y == i && x
                        < j) {
                        halftone(gray@.at(x, y), x, y)
                    } else {
                        gray@.at(x, y)
                    },
        {
            let b: u8 = BAYER_PATTERN[(i % 4) as usize][(j % 4) as usize] * 16 + 8;
            assert(mono@.at(j as int, i as int) == gray@.at(j as int, i as int));
            let f: u8 = mono.get_pixel(j, i);
            let f: u8 = if b <= f {
                255
            } else {
                0
            };
            mono.put_pixel(j, i, f);
        }
    }
    mono
}

/// Whether `row` and `col` name a cell of the 4x4 tile.
pub open spec fn in_tile(row: int, col: int) -> bool {
    0 <= row < 4 && 0 <= col < 4
}

/// Whether some cell of the tile holds `k`.
pub open spec fn occurs(k: int) -> bool {
    exists|row: int, col: int| #[trigger] in_tile(row, col) && rank(row, col) == k
}

/// The entries of the matrix are the numbers 0 to 15, each in exactly one
/// cell, so the thresholds of a tile are the odd multiples of 8 from 8 to
/// 248, each used once.
pub proof fn lemma_matrix_is_permutation()
    ensures
        forall|row: int, col: int| in_tile(row, col) ==> 0 <= #[trigger] rank(row, col) < 16,
        forall|r1: int, c1: int, r2: int, c2: int|
            in_tile(r1, c1) && in_tile(r2, c2) && #[trigger] rank(r1, c1) == #[trigger] rank(
                r2,
                c2,
            ) ==> r1 == r2 && c1 == c2,
        forall|k: int| 0 <= k < 16 ==> #[trigger] occurs(k),
        forall|x: int, y: int|
            8 <= #[trigger] threshold(x, y) <= 248 && threshold(x, y) % 16 == 8,
{
    assert forall|k: int| 0 <= k < 16 implies #[trigger] occurs(k) by {
        assert(in_tile(0, 0) && in_tile(0, 1) && in_tile(0, 2) && in_tile(0, 3));
        assert(in_tile(1, 0) && in_tile(1, 1) && in_tile(1, 2) && in_tile(1, 3));
        assert(in_tile(2, 0) && in_tile(2, 1) && in_tile(2, 2) && in_tile(2, 3));
        assert(in_tile(3, 0) && in_tile(3, 1) && in_tile(3, 2) && in_tile(3, 3));
    }
    assert forall|x: int, y: int|
        8 <= #[trigger] threshold(x, y) <= 248 && threshold(x, y) % 16 == 8 by {
        assert(in_tile(y % 4, x % 4));
    }
}

/// Ordered dithering leaves nothing but black and white in the image.
pub proof fn lemma_dither_is_bilevel(gray: GridView, mono: GridView)
    requires
        dithers(gray, mono),
    ensures
        mono.is_bilevel(),
{
}

/// Images that are the same have the same ordered dithering: the result is
/// fixed by the dimensions and the samples of the input.
pub proof fn lemma_dither_is_determined(
    gray_a: GridView,
    gray_b: GridView,
    mono_a: GridView,
    mono_b: GridView,
)
    requires
        gray_a.same_image(gray_b),
        dithers(gray_a, mono_a),
        dithers(gray_b, mono_b),
    ensures
        mono_a.same_image(mono_b),
{
}

/// The dithered value of a sample depends on its value and on its place
/// within the 4x4 tile only.
pub proof fn lemma_halftone_depends_on_tile_cell(v: u8, x1: int, y1: int, x2: int, y2: int)
    requires
        x1 % 4 == x2 % 4,
        y1 % 4 == y2 % 4,
    ensures
        halftone(v, x1, y1) == halftone(v, x2, y2),
{
}

/// Moving a sample by whole tiles, in either axis, does not change its
/// dithered value: the pattern repeats every 4 columns and every 4 rows.
pub proof fn lemma_halftone_is_periodic(v: u8, x: int, y: int, tiles_right: int, tiles_down: int)
    ensures
        halftone(v, x + 4 * tiles_right, y + 4 * tiles_down) == halftone(v, x, y),
{
    assert((x + 4 * tiles_right) % 4 == x % 4) by (nonlinear_arith);
    assert((y + 4 * tiles_down) % 4 == y % 4) by (nonlinear_arith);
}

} // verus!
