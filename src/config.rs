use vstd::prelude::*;

use crate::color_utils::Color;

verus! {

/// The tolerances and the color that drive template extraction and search.
#[derive(Clone, Copy, Debug, PartialEq, Eq, Structural)]
pub struct Config {
    /// Tolerance used when picking template pixels out of the reference image.
    pub extracting_tolerance: u8,
    /// Tolerance within which all template pixels of a window must agree.
    pub searching_similarity_tolerance: u8,
    /// A boundary pixel this close to the window's color rejects the window.
    pub searching_contrast_tolerance: u8,
    /// The reference-image color that marks template pixels.
    pub searched_color: Color,
}

impl Config {
    pub fn new(
        extracting_tolerance: u8,
        searching_similarity_tolerance: u8,
        searching_contrast_tolerance: u8,
        searched_color: Color,
    ) -> (c: Config)
        ensures
            c == (Config {
                extracting_tolerance,
                searching_similarity_tolerance,
                searching_contrast_tolerance,
                searched_color,
            }),
    {
        Config {
            extracting_tolerance,
            searching_similarity_tolerance,
            searching_contrast_tolerance,
            searched_color,
        }
    }

    /// Tolerance 1 everywhere, searching for the near-black color (1, 1, 1).
    pub fn new_default() -> (c: Config)
        ensures
            c.extracting_tolerance == 1,
            c.searching_similarity_tolerance == 1,
            c.searching_contrast_tolerance == 1,
            c.searched_color == (Color { r: 1, g: 1, b: 1, a: 255 }),
    {
        Config {
            extracting_tolerance: 1,
            searching_similarity_tolerance: 1,
            searching_contrast_tolerance: 1,
            searched_color: Color::rgb(1, 1, 1),
        }
    }
}

} // verus!
