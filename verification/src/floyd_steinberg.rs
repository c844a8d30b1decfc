//! Floyd-Steinberg error diffusion.
//!
//! Pixels are visited row by row from the top. Each visited sample is
//! replaced by black or white, and the difference between what it was and
//! what it became is handed on, in sixteenths, to four neighbours that have
//! not been visited yet.

use crate::grid::{bilevel, Grid, GridView};
use vstd::prelude::*;

verus! {

/// Samples above this value become white, all others black.
pub const THRESHOLD: u8 = 127;

/// Sixteenths of the error given to the next pixel of the row.
pub const AHEAD: u8 = 7;

/// Sixteenths of the error given to the pixel one row down, one column back.
pub const BELOW_BEHIND: u8 = 3;

/// Sixteenths of the error given to the pixel directly below.
pub const BELOW: u8 = 5;

/// Sixteenths of the error given to the pixel one row down, one column on.
pub const BELOW_AHEAD: u8 = 1;

/// The common denominator of the four weights.
pub const SIXTEENTHS: u8 = 16;

/// What happens to a sample that an error share pushes out of `0..=255`.
/// [`dither`] and [`serpentine_scanning_dither`] wrap.
#[derive(Clone, Copy, Debug, PartialEq, Eq)]
pub enum Overflow {
    /// The sum is reduced modulo 256.
    Wrap,
    /// The sum is clamped to `0..=255`.
    Saturate,
}

/// Black or white, whichever `v` is quantized to.
pub open spec fn quantized(v: u8) -> u8 {
    if v > THRESHOLD {
        255
    } else {
        0
    }
}

/// The quantization error of `v`: what it was minus what it became.
pub open spec fn residual(v: u8) -> int {
    v - quantized(v)
}

/// `weight` sixteenths of `err`, rounded toward zero.
pub open spec fn share(weight: int, err: int) -> int {
    if err >= 0 {
        (weight * err) / (SIXTEENTHS as int)
    } else {
        -((weight * (-err)) / (SIXTEENTHS as int))
    }
}

/// The sample that stands for `sum` under the given overflow rule.
pub open spec fn folded(sum: int, overflow: Overflow) -> u8 {
    match overflow {
        Overflow::Wrap => (sum % 256) as u8,
        Overflow::Saturate => if sum < 0 {
            0
        } else if sum > 255 {
            255
        } else {
            sum as u8
        },
    }
}

/// The image after `delta` was added to the sample at `(x, y)`. A target
/// outside the image receives nothing.
pub open spec fn received(
    g: GridView,
    x: int,
    y: int,
    delta: int,
    overflow: Overflow,
) -> GridView {
    if g.contains(x, y) {
        g.put(x, y, folded(g.at(x, y) + delta, overflow))
    } else {
        g
    }
}

/// The image after the pixel at `(x, y)` was quantized and its error spread.
/// In a `leftward` row the neighbours are mirrored horizontally.
pub open spec fn visited(
    g: GridView,
    x: int,
    y: int,
    leftward: bool,
    overflow: Overflow,
) -> GridView {
    let err = residual(g.at(x, y));
    let step: int = if leftward {
        -1
    } else {
        1
    };
    let g0 = g.put(x, y, quantized(g.at(x, y)));
    let g1 = received(g0, x + step, y, share(AHEAD as int, err), overflow);
    let g2 = received(g1, x - step, y + 1, share(BELOW_BEHIND as int, err), overflow);
    let g3 = received(g2, x, y + 1, share(BELOW as int, err), overflow);
    received(g3, x + step, y + 1, share(BELOW_AHEAD as int, err), overflow)
}

/// The column visited `k`-th (counting from zero) in a row `width` wide.
pub open spec fn column(width: nat, k: int, leftward: bool) -> int {
    if leftward {
        width - 1 - k
    } else {
        k
    }
}

/// The image after the first `count` pixels of row `y` were visited.
pub open spec fn row_scanned(
    g: GridView,
    y: int,
    count: nat,
    leftward: bool,
    overflow: Overflow,
) -> GridView
    decreases count,
{
    if count == 0 {
        g
    } else {
        visited(
            row_scanned(g, y, (count - 1) as nat, leftward, overflow),
            column(g.width, count - 1, leftward),
            y,
            leftward,
            overflow,
        )
    }
}

/// Whether row `y` is scanned from right to left.
pub open spec fn leftward_row(y: int, serpentine: bool) -> bool {
    serpentine && y % 2 == 1
}

/// The image after its first `rows` rows were scanned.
pub open spec fn rows_scanned(
    g: GridView,
    rows: nat,
    serpentine: bool,
    overflow: Overflow,
) -> GridView
    decreases rows,
{
    if rows == 0 {
        g
    } else {
        row_scanned(
            rows_scanned(g, (rows - 1) as nat, serpentine, overflow),
            rows - 1,
            g.width,
            leftward_row(rows - 1, serpentine),
            overflow,
        )
    }
}

/// The image after error diffusion over all of its rows.
pub open spec fn diffused(g: GridView, serpentine: bool, overflow: Overflow) -> GridView {
    rows_scanned(g, g.height, serpentine, overflow)
}

/// Quantizes the sample at column `j`, row `i` and returns its error.
fn update_pixel(img: &mut Grid, j: u32, i: u32) -> (err: i16)
    requires
        old(img)@.contains(j as int, i as int),
    ensures
        final(img)@ == old(img)@.put(
            j as int,
            i as int,
            quantized(old(img)@.at(j as int, i as int)),
        ),
        err == residual(old(img)@.at(j as int, i as int)),
{
    let old_value: u8 = img.get_pixel(j, i);
    let new_value: u8 = if old_value > THRESHOLD {
        255
    } else {
        0
    };
    img.put_pixel(j, i, new_value);
    old_value as i16 - new_value as i16
}

/// `weight` sixteenths of `err`, rounded toward zero.
fn portion(weight: u8, err: i16) -> (delta: i16)
    requires
        weight <= SIXTEENTHS,
        -255 <= err <= 255,
    ensures
        delta == share(weight as int, err as int),
        -255 <= delta <= 255,
{
    let magnitude: u16 = if err >= 0 {
        err as u16
    } else {
        (-err) as u16
    };
    assert(weight * magnitude <= 16 * 255) by (nonlinear_arith)
        requires
            0 <= weight <= 16,
            0 <= magnitude <= 255,
    ;
    let part: u16 = (weight as u16 * magnitude) / (SIXTEENTHS as u16);
    if err >= 0 {
        part as i16
    } else {
        -(part as i16)
    }
}

/// The sample that stands for `sum` under the given overflow rule.
fn fold(sum: i16, overflow: Overflow) -> (v: u8)
    requires
        -256 <= sum < 512,
    ensures
        v == folded(sum as int, overflow),
{
    match overflow {
        Overflow::Wrap => if sum < 0 {
            (sum + 256) as u8
        } else if sum > 255 {
            (sum - 256) as u8
        } else {
            sum as u8
        },
        Overflow::Saturate => if sum < 0 {
            0
        } else if sum > 255 {
            255
        } else {
            sum as u8
        },
    }
}

/// Adds `delta` to the sample at column `j`, row `i`, if there is one.
fn update_neighboring_pixel(img: &mut Grid, j: i64, i: i64, delta: i16, overflow: Overflow)
    requires
        -255 <= delta <= 255,
    ensures
        final(img)@ == received(old(img)@, j as int, i as int, delta as int, overflow),
{
    let width: i64 = img.width() as i64;
    let height: i64 = img.height() as i64;
    if 0 <= j && j < width && 0 <= i && i < height {
        let (j, i) = (j as u32, i as u32);
        let lum: u8 = fold(img.get_pixel(j, i) as i16 + delta, overflow);
        img.put_pixel(j, i, lum);
    }
}

/// Visits every pixel of row `i`, from the right if `leftward`, else from
/// the left.
fn scan_row(mono: &mut Grid, i: u32, leftward: bool, overflow: Overflow)
    requires
        i < old(mono)@.height,
    ensures
        final(mono)@ == row_scanned(
            old(mono)@,
            i as int,
            old(mono)@.width,
            leftward,
            overflow,
        ),
        final(mono)@.width == old(mono)@.width,
        final(mono)@.height == old(mono)@.height,
{
    let width: u32 = mono.width();
    let step: i64 = if leftward {
        -1
    } else {
        1
    };
    for k in 0..width
        invariant
            width == old(mono)@.width,
            i < old(mono)@.height,
            step == if leftward { -1i64 } else { 1i64 },
            mono@.width == old(mono)@.width,
            mono@.height == old(mono)@.height,
            mono@ == row_scanned(old(mono)@, i as int, k as nat, leftward, overflow),
    {
        let j: u32 = if leftward {
            width - 1 - k
        } else {
            k
        };
        let err: i16 = update_pixel(mono, j, i);
        let (x, y) = (j as i64, i as i64);
        update_neighboring_pixel(mono, x + step, y, portion(AHEAD, err), overflow);
        update_neighboring_pixel(mono, x - step, y + 1, portion(BELOW_BEHIND, err), overflow);
        update_neighboring_pixel(mono, x, y + 1, portion(BELOW, err), overflow);
        update_neighboring_pixel(mono, x + step, y + 1, portion(BELOW_AHEAD, err), overflow);
    }
}

/// Error diffusion with every choice spelled out: `serpentine` scans the
/// odd rows from right to left, and `overflow` says what becomes of a sample
/// that a share of error pushes out of range.
pub fn dither_with(gray: &Grid, serpentine: bool, overflow: Overflow) -> (mono: Grid)
    ensures
        mono@ == diffused(gray@, serpentine, overflow),
        mono@.width == gray@.width,
        mono@.height == gray@.height,
        mono@.is_bilevel(),
{
    let mut mono = gray.duplicate();
    let height: u32 = mono.height();
    for i in 0..height
        invariant
            height == gray@.height,
            mono@.width == gray@.width,
            mono@.height == gray@.height,
            mono@ == rows_scanned(gray@, i as nat, serpentine, overflow),
    {
        scan_row(&mut mono, i, serpentine && i % 2 == 1, overflow);
    }
    proof {
        lemma_diffused_is_bilevel(gray@, serpentine, overflow);
    }
    mono
}

/// Error diffusion in raster order: every row from left to right.
pub fn dither(gray: &Grid) -> (mono: Grid)
    ensures
        mono@ == diffused(gray@, false, Overflow::Wrap),
        mono@.width == gray@.width,
        mono@.height == gray@.height,
        mono@.is_bilevel(),
{
    dither_with(gray, false, Overflow::Wrap)
}

/// Error diffusion in serpentine order: even rows from left to right, odd
/// rows from right to left with the neighbours mirrored.
pub fn serpentine_scanning_dither(gray: &Grid) -> (mono: Grid)
    ensures
        mono@ == diffused(gray@, true, Overflow::Wrap),
        mono@.width == gray@.width,
        mono@.height == gray@.height,
        mono@.is_bilevel(),
{
    dither_with(gray, true, Overflow::Wrap)
}

/// A visit leaves the dimensions alone, quantizes the visited pixel, and
/// touches nothing in the rows above nor, in its own row, any pixel other
/// than itself and the next one.
proof fn lemma_visited(g: GridView, x: int, y: int, leftward: bool, overflow: Overflow)
    ensures
        visited(g, x, y, leftward, overflow).width == g.width,
        visited(g, x, y, leftward, overflow).height == g.height,
        visited(g, x, y, leftward, overflow).at(x, y) == quantized(g.at(x, y)),
        forall|a: int, b: int|
            b < y || (b == y && a != x && a != x + (if leftward { -1int } else { 1int }))
                ==> #[trigger] visited(g, x, y, leftward, overflow).at(a, b) == g.at(a, b),
{
}

/// Scanning the first `count` pixels of row `y` leaves the dimensions and
/// the rows above alone, and the pixels it visited are black or white.
proof fn lemma_row_scanned(g: GridView, y: int, count: nat, leftward: bool, overflow: Overflow)
    requires
        count <= g.width,
    ensures
        row_scanned(g, y, count, leftward, overflow).width == g.width,
        row_scanned(g, y, count, leftward, overflow).height == g.height,
        forall|a: int, b: int|
            b < y ==> #[trigger] row_scanned(g, y, count, leftward, overflow).at(a, b) == g.at(
                a,
                b,
            ),
        forall|k: int|
            0 <= k < count ==> bilevel(
                #[trigger] row_scanned(g, y, count, leftward, overflow).at(
                    column(g.width, k, leftward),
                    y,
                ),
            ),
    decreases count,
{
    if count > 0 {
        let before = row_scanned(g, y, (count - 1) as nat, leftward, overflow);
        let x = column(g.width, count - 1, leftward);
        let after = row_scanned(g, y, count, leftward, overflow);
        lemma_row_scanned(g, y, (count - 1) as nat, leftward, overflow);
        lemma_visited(before, x, y, leftward, overflow);
        assert(after == visited(before, x, y, leftward, overflow));
        assert forall|k: int| 0 <= k < count implies bilevel(
            #[trigger] after.at(column(g.width, k, leftward), y),
        ) by {
            if k < count - 1 {
                assert(bilevel(before.at(column(g.width, k, leftward), y)));
            }
        }
    }
}

/// Scanning the first `rows` rows leaves the dimensions alone and every
/// pixel of those rows black or white.
proof fn lemma_rows_scanned(g: GridView, rows: nat, serpentine: bool, overflow: Overflow)
    requires
        rows <= g.height,
    ensures
        rows_scanned(g, rows, serpentine, overflow).width == g.width,
        rows_scanned(g, rows, serpentine, overflow).height == g.height,
        forall|a: int, b: int|
            0 <= a < g.width && 0 <= b < rows ==> bilevel(
                #[trigger] rows_scanned(g, rows, serpentine, overflow).at(a, b),
            ),
    decreases rows,
{
    if rows > 0 {
        let y = rows - 1;
        let leftward = leftward_row(y, serpentine);
        let above = rows_scanned(g, (rows - 1) as nat, serpentine, overflow);
        let after = rows_scanned(g, rows, serpentine, overflow);
        lemma_rows_scanned(g, (rows - 1) as nat, serpentine, overflow);
        lemma_row_scanned(above, y, g.width, leftward, overflow);
        assert(after == row_scanned(above, y, g.width, leftward, overflow));
        assert forall|a: int, b: int| 0 <= a < g.width && 0 <= b < rows implies bilevel(
            #[trigger] after.at(a, b),
        ) by {
            if b < y {
                assert(bilevel(above.at(a, b)));
            } else {
                let k = if leftward {
                    g.width - 1 - a
                } else {
                    a
                };
                assert(column(above.width, k, leftward) == a);
                assert(bilevel(after.at(column(above.width, k, leftward), y)));
            }
        }
    }
}

/// Error diffusion keeps the dimensions and leaves nothing but black and
/// white in the image, whatever the scan order and the overflow rule.
pub proof fn lemma_diffused_is_bilevel(g: GridView, serpentine: bool, overflow: Overflow)
    ensures
        diffused(g, serpentine, overflow).width == g.width,
        diffused(g, serpentine, overflow).height == g.height,
        diffused(g, serpentine, overflow).is_bilevel(),
{
    lemma_rows_scanned(g, g.height, serpentine, overflow);
}

/// There is no going back: once a row has been scanned, scanning the rows
/// below it changes none of its samples. Errors only ever move to pixels
/// that are still to be visited.
pub proof fn lemma_scanned_rows_are_final(
    g: GridView,
    rows: nat,
    later: nat,
    serpentine: bool,
    overflow: Overflow,
)
    requires
        rows <= later <= g.height,
    ensures
        forall|x: int, y: int|
            y < rows ==> #[trigger] rows_scanned(g, later, serpentine, overflow).at(x, y)
                == rows_scanned(g, rows, serpentine, overflow).at(x, y),
    decreases later - rows,
{
    if rows < later {
        let above = rows_scanned(g, (later - 1) as nat, serpentine, overflow);
        lemma_scanned_rows_are_final(g, rows, (later - 1) as nat, serpentine, overflow);
        lemma_rows_scanned(g, (later - 1) as nat, serpentine, overflow);
        lemma_row_scanned(above, later - 1, g.width, leftward_row(later - 1, serpentine), overflow);
    }
}

/// A visit inside the image treats images that are the same alike.
proof fn lemma_visited_same(
    a: GridView,
    b: GridView,
    x: int,
    y: int,
    leftward: bool,
    overflow: Overflow,
)
    requires
        a.same_image(b),
        a.contains(x, y),
    ensures
        visited(a, x, y, leftward, overflow).same_image(visited(b, x, y, leftward, overflow)),
{
}

/// Scanning part of a row treats images that are the same alike.
proof fn lemma_row_scanned_same(
    a: GridView,
    b: GridView,
    y: int,
    count: nat,
    leftward: bool,
    overflow: Overflow,
)
    requires
        a.same_image(b),
        0 <= y < a.height,
        count <= a.width,
    ensures
        row_scanned(a, y, count, leftward, overflow).same_image(
            row_scanned(b, y, count, leftward, overflow),
        ),
    decreases count,
{
    if count > 0 {
        let x = column(a.width, count - 1, leftward);
        let before_a = row_scanned(a, y, (count - 1) as nat, leftward, overflow);
        let before_b = row_scanned(b, y, (count - 1) as nat, leftward, overflow);
        lemma_row_scanned_same(a, b, y, (count - 1) as nat, leftward, overflow);
        lemma_row_scanned(a, y, (count - 1) as nat, leftward, overflow);
        lemma_visited_same(before_a, before_b, x, y, leftward, overflow);
    }
}

/// Scanning the first rows treats images that are the same alike.
proof fn lemma_rows_scanned_same(
    a: GridView,
    b: GridView,
    rows: nat,
    serpentine: bool,
    overflow: Overflow,
)
    requires
        a.same_image(b),
        rows <= a.height,
    ensures
        rows_scanned(a, rows, serpentine, overflow).same_image(
            rows_scanned(b, rows, serpentine, overflow),
        ),
    decreases rows,
{
    if rows > 0 {
        let above_a = rows_scanned(a, (rows - 1) as nat, serpentine, overflow);
        let above_b = rows_scanned(b, (rows - 1) as nat, serpentine, overflow);
        lemma_rows_scanned_same(a, b, (rows - 1) as nat, serpentine, overflow);
        lemma_rows_scanned(a, (rows - 1) as nat, serpentine, overflow);
        lemma_row_scanned_same(
            above_a,
            above_b,
            rows - 1,
            a.width,
            leftward_row(rows - 1, serpentine),
            overflow,
        );
    }
}

/// Images that are the same diffuse to images that are the same: the
/// result is fixed by the dimensions and samples of the input, the scan
/// order and the overflow rule.
pub proof fn lemma_diffused_is_determined(
    a: GridView,
    b: GridView,
    serpentine: bool,
    overflow: Overflow,
)
    requires
        a.same_image(b),
    ensures
        diffused(a, serpentine, overflow).same_image(diffused(b, serpentine, overflow)),
{
    lemma_rows_scanned_same(a, b, a.height, serpentine, overflow);
}

/// On an image of at most one row the serpentine scan is the raster scan:
/// row 0 runs from left to right in both.
pub proof fn lemma_serpentine_single_row(g: GridView, overflow: Overflow)
    requires
        g.height <= 1,
    ensures
        diffused(g, true, overflow) == diffused(g, false, overflow),
{
    reveal_with_fuel(rows_scanned, 2);
}

/// The four weights share out the whole error: they add up to sixteen
/// sixteenths, so before rounding the shares of any error add up to it.
pub proof fn lemma_weights_sum_to_one(err: int)
    ensures
        AHEAD + BELOW_BEHIND + BELOW + BELOW_AHEAD == SIXTEENTHS,
        AHEAD * err + BELOW_BEHIND * err + BELOW * err + BELOW_AHEAD * err == SIXTEENTHS * err,
{
}

/// Rounding loses less than four levels and never adds any: the four
/// shares of an error add up to a value between zero and the error, no more
/// than three away from it.
pub proof fn lemma_shares_stay_within_error(err: int)
    ensures
        ({
            let handed_on = share(AHEAD as int, err) + share(BELOW_BEHIND as int, err) + share(
                BELOW as int,
                err,
            ) + share(BELOW_AHEAD as int, err);
            if err >= 0 {
                err - 3 <= handed_on <= err
            } else {
                err <= handed_on <= err + 3
            }
        }),
{
}

} // verus!
