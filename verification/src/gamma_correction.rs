//! Gamma correction through a 256-entry lookup table.
//!
//! The table itself is computed from the gamma exponent in floating point,
//! which is outside what this crate verifies; here the table is taken as
//! given and applied to every sample.

use crate::grid::{Grid, GridView};
use vstd::prelude::*;

verus! {

/// What the sample `v` becomes under the table `lut`.
pub open spec fn remapped(lut: Seq<u8>, v: u8) -> u8 {
    lut[v as int]
}

/// Whether `lut` maps every intensity to itself.
pub open spec fn is_identity(lut: Seq<u8>) -> bool {
    lut.len() == 256 && forall|v: int| 0 <= v < 256 ==> #[trigger] lut[v] == v
}

/// Whether `dst` is `img` seen through the table `lut`: an image of the same
/// dimensions in which every sample is the table's entry for the sample that
/// `img` has at that place.
pub open spec fn remaps(img: GridView, lut: Seq<u8>, dst: GridView) -> bool {
    &&& dst.width == img.width
    &&& dst.height == img.height
    &&& forall|x: int, y: int|
        img.contains(x, y) ==> #[trigger] dst.at(x, y) == remapped(lut, img.at(x, y))
}

/// Replaces every sample by its entry in `lut`.
pub fn apply_lut(img: &Grid, lut: &[u8; 256]) -> (dst: Grid)
    ensures
        remaps(img@, lut@, dst@),
        dst@.width == img@.width,
        dst@.height == img@.height,
{
    let mut dst = img.duplicate();
    let (width, height) = dst.dimensions();
    for i in 0..height
        invariant
            width == img@.width,
            height == img@.height,
            dst@.width == img@.width,
            dst@.height == img@.height,
            forall|x: int, y: int|
                img@.contains(x, y) ==> #[trigger] dst@.at(x, y) == if y < i {
                    remapped(lut@, img@.at(x, y))
                } else {
                    img@.at(x, y)
                },
    {
        for j in 0..width
            invariant
                width == img@.width,
                height == img@.height,
                i < height,
                dst@.width == img@.width,
                dst@.height == img@.height,
                forall|x: int, y: int|
                    img@.contains(x, y) ==> #[trigger] dst@.at(x, y) == if y < i || (y == i && x
                        < j) {
                        remapped(lut@, img@.at(x, y))
                    } else {
                        img@.at(x, y)
                    },
        {
            assert(dst@.at(j as int, i as int) == img@.at(j as int, i as int));
            let x: u8 = dst.get_pixel(j, i);
            let y: u8 = lut[x as usize];
            dst.put_pixel(j, i, y);
        }
    }
    dst
}

/// A table that maps every intensity to itself changes no sample, so
/// correcting with it gives the image back.
pub proof fn lemma_identity_table_keeps_image(img: GridView, lut: Seq<u8>, dst: GridView)
    requires
        is_identity(lut),
        remaps(img, lut, dst),
    ensures
        dst.same_image(img),
{
}

/// Images that are the same look the same through one table: the result
/// is fixed by the table and by the dimensions and samples of the input.
pub proof fn lemma_apply_lut_is_determined(
    img_a: GridView,
    img_b: GridView,
    lut: Seq<u8>,
    dst_a: GridView,
    dst_b: GridView,
)
    requires
        img_a.same_image(img_b),
        remaps(img_a, lut, dst_a),
        remaps(img_b, lut, dst_b),
    ensures
        dst_a.same_image(dst_b),
{
}

} // verus!
