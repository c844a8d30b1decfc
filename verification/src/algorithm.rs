//! The choice among the dithering algorithms, by name.

use crate::bayer;
use crate::floyd_steinberg;
use crate::floyd_steinberg::Overflow;
use crate::grid::{Grid, GridView};
use vstd::prelude::*;

verus! {

/// A dithering algorithm.
#[derive(Clone, Copy, Debug, PartialEq, Eq)]
pub enum Algorithm {
    /// Ordered dithering with the 4x4 Bayer matrix.
    Bayer,
    /// Floyd-Steinberg error diffusion in raster order.
    FloydSteinberg,
    /// Floyd-Steinberg error diffusion in serpentine order.
    Serpentine,
}

impl Algorithm {
    /// The algorithm that goes by `name`, if any does.
    pub open spec fn named(name: Seq<char>) -> Option<Algorithm> {
        if name == "bayer"@ {
            Some(Algorithm::Bayer)
        } else if name == "floyd"@ || name == "floyd-steinberg"@ {
            Some(Algorithm::FloydSteinberg)
        } else if name == "floyd2"@ || name == "serpentine"@ {
            Some(Algorithm::Serpentine)
        } else {
            None
        }
    }

    /// Whether `mono` is what the algorithm makes of `gray`.
    pub open spec fn makes(self, gray: GridView, mono: GridView) -> bool {
        match self {
            Algorithm::Bayer => bayer::dithers(gray, mono),
            Algorithm::FloydSteinberg => mono == floyd_steinberg::diffused(
                gray,
                false,
                Overflow::Wrap,
            ),
            Algorithm::Serpentine => mono == floyd_steinberg::diffused(gray, true, Overflow::Wrap),
        }
    }

    /// Looks an algorithm up by its name: `bayer`; `floyd` or
    /// `floyd-steinberg`; `floyd2` or `serpentine`. Any other name is unknown.
    pub fn from_name(name: &str) -> (choice: Option<Algorithm>)
        ensures
            choice == Algorithm::named(name@),
    {
        if same(name, "bayer") {
            Some(Algorithm::Bayer)
        } else if same(name, "floyd") || same(name, "floyd-steinberg") {
            Some(Algorithm::FloydSteinberg)
        } else if same(name, "floyd2") || same(name, "serpentine") {
            Some(Algorithm::Serpentine)
        } else {
            None
        }
    }

    /// Dithers `gray` with this algorithm.
    pub fn dither(self, gray: &Grid) -> (mono: Grid)
        ensures
            self.makes(gray@, mono@),
            mono@.width == gray@.width,
            mono@.height == gray@.height,
            mono@.is_bilevel(),
    {
        match self {
            Algorithm::Bayer => bayer::dither(gray),
            Algorithm::FloydSteinberg => floyd_steinberg::dither(gray),
            Algorithm::Serpentine => floyd_steinberg::serpentine_scanning_dither(gray),
        }
    }
}

/// Whether the two strings hold the same characters.
fn same(a: &str, b: &str) -> (equal: bool)
    ensures
        equal == (a@ == b@),
{
    a.to_owned() == b.to_owned()
}

} // verus!
